use vstd::prelude::*;
use crate::transport::{Frame, Transport};
use crate::clock::now_millis;

verus! {

/// Pads frame data with zero bytes up to the 8-byte CAN payload.
pub open spec fn pad8(d: Seq<u8>) -> Seq<u8> {
    if d.len() >= 8 {
        d
    } else {
        d + Seq::new((8 - d.len()) as nat, |i: int| 0u8)
    }
}

/// The single frame carrying a payload of at most 7 bytes: the length in the
/// low nibble of byte 0, then the payload, zero-padded.
pub open spec fn sf_data(p: Seq<u8>) -> Seq<u8> {
    pad8(seq![p.len() as u8] + p)
}

/// The first frame of a longer payload: 0x1 in the high nibble, the 12-bit
/// total length, then the first 6 payload bytes.
pub open spec fn ff_data(p: Seq<u8>) -> Seq<u8> {
    let n = p.len() as u16;
    seq![0x10u8 | (((n >> 8) as u8) & 0x0F), (n & 0xFF) as u8] + p.subrange(0, 6)
}

/// The `j`-th consecutive frame (counting from zero): 0x2 in the high
/// nibble, the sequence number starting at 1 and wrapping at 16, then the
/// next payload chunk of up to 7 bytes, zero-padded.
pub open spec fn cf_data(p: Seq<u8>, j: int) -> Seq<u8> {
    let off = 6 + 7 * j;
    let end = if off + 7 <= p.len() {
        off + 7
    } else {
        p.len() as int
    };
    pad8(seq![0x20u8 | (((j + 1) % 16) as u8)] + p.subrange(off, end))
}

/// How many consecutive frames a payload longer than 7 bytes needs:
/// the ceiling of (len - 6) / 7, which equals len / 7 there.
pub open spec fn num_cfs(len: nat) -> nat {
    len / 7
}

/// The full frame-data sequence the send pipeline emits for a payload of at
/// most 4095 bytes: one single frame, or a first frame followed by its
/// consecutive frames.
pub open spec fn isotp_frames(p: Seq<u8>) -> Seq<Seq<u8>> {
    if p.len() <= 7 {
        seq![sf_data(p)]
    } else {
        seq![ff_data(p)] + Seq::new(num_cfs(p.len()), |j: int| cf_data(p, j))
    }
}

/// The reassembly state: whether a first frame was seen, the declared total
/// length, and the bytes accumulated so far.
#[verifier::ext_equal]
pub ghost struct RState {
    pub started: bool,
    pub total: nat,
    pub buf: Seq<u8>,
}

/// The state before any frame arrived.
pub open spec fn reasm_init() -> RState {
    RState { started: false, total: 0, buf: Seq::empty() }
}

/// One reassembly step on the data of a frame that already matched the
/// expected receive id: single frames complete immediately, a first frame
/// records the total and the initial bytes, consecutive frames append their
/// chunk and complete once the declared total is covered, everything else is
/// ignored. Frames shorter than the 8 wire bytes are ignored in the
/// multi-frame branches.
pub open spec fn reasm_step(st: RState, d: Seq<u8>) -> (RState, Option<Seq<u8>>) {
    if d.len() == 0 {
        (st, None)
    } else {
        let pci = d[0] >> 4;
        if pci == 0 {
            let l = (d[0] & 0x0F) as int;
            let end = if 1 + l <= d.len() {
                1 + l
            } else {
                d.len() as int
            };
            (st, Some(d.subrange(1, end)))
        } else if pci == 1 {
            if d.len() < 8 {
                (st, None)
            } else {
                let tot = ((d[0] & 0x0F) as nat) * 256 + d[1] as nat;
                (RState { started: true, total: tot, buf: st.buf + d.subrange(2, 8) }, None)
            }
        } else if pci == 2 {
            if !st.started || d.len() < 8 {
                (st, None)
            } else {
                let b2 = st.buf + d.subrange(1, 8);
                if b2.len() >= st.total {
                    (
                        RState { started: st.started, total: st.total, buf: b2 },
                        Some(b2.take(st.total as int)),
                    )
                } else {
                    (RState { started: st.started, total: st.total, buf: b2 }, None)
                }
            }
        } else {
            (st, None)
        }
    }
}

/// Runs the reassembly over a sequence of frame datas, stopping at the
/// first completed payload.
pub open spec fn reasm_fold(st: RState, frames: Seq<Seq<u8>>) -> (RState, Option<Seq<u8>>)
    decreases frames.len(),
{
    if frames.len() == 0 {
        (st, None)
    } else {
        let (st2, out) = reasm_step(st, frames[0]);
        if out is Some {
            (st2, out)
        } else {
            reasm_fold(st2, frames.drop_first())
        }
    }
}

/// Extending an unfinished run by one frame performs one more step.
pub proof fn lemma_reasm_fold_snoc(st: RState, frames: Seq<Seq<u8>>, d: Seq<u8>)
    requires
        reasm_fold(st, frames).1 is None,
    ensures
        reasm_fold(st, frames.push(d)).0 == reasm_step(reasm_fold(st, frames).0, d).0,
        reasm_fold(st, frames.push(d)).1 == reasm_step(reasm_fold(st, frames).0, d).1,
    decreases frames.len(),
{
    if frames.len() == 0 {
        assert(frames.push(d).len() == 1);
        assert(frames.push(d)[0] == d);
        let (st2, out) = reasm_step(st, d);
        if out is Some {
            assert(reasm_fold(st, frames.push(d)).0 == st2);
            assert(reasm_fold(st, frames.push(d)).1 == out);
        } else {
            assert(frames.push(d).drop_first() =~= Seq::<Seq<u8>>::empty());
            assert(reasm_fold(st2, frames.push(d).drop_first()).0 == st2);
            assert(reasm_fold(st, frames.push(d)).0 == st2);
            assert(reasm_fold(st, frames.push(d)).1 == out);
        }
        assert(reasm_fold(st, frames).0 == st);
    } else {

        assert(frames.push(d)[0] == frames[0]);
        assert(frames.push(d).drop_first() =~= frames.drop_first().push(d));
        lemma_reasm_fold_snoc(reasm_step(st, frames[0]).0, frames.drop_first(), d);
    }
}

/// A single frame whose declared length is zero completes at once with the
/// empty payload.
pub proof fn lemma_sf_empty_payload(st: RState, d: Seq<u8>)
    requires
        d.len() >= 1,
        d[0] == 0u8,
    ensures
        reasm_step(st, d).1 == Some(Seq::<u8>::empty()),
{
    assert(0u8 >> 4 == 0u8) by (bit_vector);
    assert(0u8 & 0x0F == 0u8) by (bit_vector);
    assert(d.subrange(1, 1) =~= Seq::<u8>::empty());
}

/// A payload longer than 7 bytes is framed as one first frame followed by
/// ceiling((len - 6) / 7) consecutive frames; at 4095 bytes that is 585.
pub proof fn lemma_frame_count(p: Seq<u8>)
    requires
        7 < p.len() <= 4095,
    ensures
        isotp_frames(p).len() == 1 + num_cfs(p.len()),
        p.len() == 4095 ==> isotp_frames(p).len() == 586,
{
}

/// Runs the reassembly over the consecutive frames of `p` from index `k`
/// onward, starting from a state that already holds the first `6 + 7k`
/// payload bytes: the declared total is reached exactly at the last frame
/// and the reassembled payload is `p`.
proof fn lemma_cf_run(p: Seq<u8>, k: int, st: RState)
    requires
        8 <= p.len() <= 4095,
        0 <= k < num_cfs(p.len()),
        st.started,
        st.total == p.len(),
        st.buf.len() == 6 + 7 * k,
        forall|i: int| 0 <= i < 6 + 7 * k && i < p.len() ==> st.buf[i] == p[i],
    ensures
        reasm_fold(
            st,
            Seq::new((num_cfs(p.len()) - k) as nat, |j: int| cf_data(p, k + j)),
        ).1 == Some(p),
    decreases num_cfs(p.len()) - k,
{
    let len = p.len() as int;
    let ncf = num_cfs(p.len()) as int;
    assert(7 * (len / 7) + len % 7 == len);
    assert(0 <= len % 7 < 7);
    let frames = Seq::new((ncf - k) as nat, |j: int| cf_data(p, k + j));
    assert(frames[0] == cf_data(p, k));
    let d = cf_data(p, k);
    let off = 6 + 7 * k;
    assert(off < len) by {
        assert(k <= len / 7 - 1);
        assert(7 * k <= 7 * (len / 7 - 1)) by (nonlinear_arith)
            requires
                k <= len / 7 - 1,
        ;
    }
    let end = if off + 7 <= len {
        off + 7
    } else {
        len
    };
    let chunk = p.subrange(off, end);
    let s0 = ((k + 1) % 16) as u8;
    assert(0 <= (k + 1) % 16 < 16);
    assert(s0 <= 15 ==> (0x20u8 | s0) >> 4 == 2) by (bit_vector);
    assert(s0 <= 15 ==> (0x20u8 | s0) >> 4 != 0 && (0x20u8 | s0) >> 4 != 1) by (bit_vector);
    assert(d.len() == 8);
    assert(d[0] == 0x20u8 | s0);
    let b2 = st.buf + d.subrange(1, 8);
    assert(b2.len() == 6 + 7 * (k + 1));
    assert(forall|i: int| 0 <= i < end - off ==> d.subrange(1, 8)[i] == p[off + i]);
    assert(forall|i: int| 0 <= i < end && i < p.len() ==> b2[i] == p[i]);
    if k == ncf - 1 {
        assert(6 + 7 * ncf >= len) by {
            assert(7 * (len / 7) <= len);
        }
        assert(b2.len() >= st.total);
        assert(reasm_step(st, d).1 == Some(b2.take(len)));
        assert(end == len) by {
            assert(off + 7 == 6 + 7 * ncf);
        }
        assert(b2.take(len) =~= p);
    } else {
        assert(6 + 7 * (k + 1) < len) by {
            assert(k + 1 <= len / 7 - 1);
            assert(7 * (k + 1) <= 7 * (len / 7 - 1)) by (nonlinear_arith)
                requires
                    k + 1 <= len / 7 - 1,
            ;
        }
        assert(b2.len() < st.total);
        let st2 = reasm_step(st, d).0;
        assert(st2.started && st2.total == p.len() && st2.buf == b2);
        assert(end == off + 7);
        assert(frames.drop_first() =~= Seq::new(
            (ncf - (k + 1)) as nat,
            |j: int| cf_data(p, k + 1 + j),
        ));
        lemma_cf_run(p, k + 1, st2);
    }
}

/// The round-trip law of the link layer: framing any payload of 1 to 4095
/// bytes with the send pipeline and feeding the frames back into the
/// receive pipeline reproduces the payload exactly.
pub proof fn lemma_isotp_roundtrip(p: Seq<u8>)
    requires
        1 <= p.len() <= 4095,
    ensures
        reasm_fold(reasm_init(), isotp_frames(p)).1 == Some(p),
{
    if p.len() <= 7 {
        let d = sf_data(p);
        let x = p.len() as u8;
        assert(x <= 7 ==> x >> 4 == 0) by (bit_vector);
        assert(x <= 7 ==> x & 0x0F == x) by (bit_vector);
        assert(d.len() == 8);
        assert(d[0] == x);
        assert(isotp_frames(p)[0] == d);
        assert(reasm_step(reasm_init(), d).1 == Some(d.subrange(1, 1 + p.len() as int)));
        assert(d.subrange(1, 1 + p.len() as int) =~= p);
    } else {
        let len = p.len() as int;
        let n = p.len() as u16;
        let d = ff_data(p);
        let frames = isotp_frames(p);
        assert(frames[0] == d);
        assert(d.len() == 8);
        let hh = (n >> 8) as u8;
        assert(d[0] == 0x10u8 | (hh & 0x0F));
        assert((0x10u8 | (hh & 0x0F)) >> 4 == 1) by (bit_vector);
        assert((0x10u8 | (hh & 0x0F)) >> 4 != 0) by (bit_vector);
        assert(n <= 4095 ==> ((0x10u8 | (((n >> 8) as u8) & 0x0F)) & 0x0F) as u16 == (n >> 8))
            by (bit_vector);
        assert(n <= 4095 ==> ((n >> 8) as u16) * 256 + ((n & 0xFF) as u8) as u16 == n)
            by (bit_vector);
        let st1 = reasm_step(reasm_init(), d).0;
        assert(((d[0] & 0x0F) as nat) * 256 + d[1] as nat == p.len());
        assert(reasm_step(reasm_init(), d).1 is None);
        assert(st1.started);
        assert(st1.total == p.len());
        assert(st1.buf =~= p.subrange(0, 6)) by {
            assert(reasm_init().buf + d.subrange(2, 8) =~= d.subrange(2, 8));
            assert(d.subrange(2, 8) =~= p.subrange(0, 6));
        }
        assert(st1.buf.len() == 6);
        assert(frames.drop_first() =~= Seq::new(num_cfs(p.len()), |j: int| cf_data(p, 0 + j)));
        lemma_cf_run(p, 0, st1);
    }
}

/// Builds the CAN frames that carry `payload` out on `tx_id`: one single
/// frame for up to 7 bytes, else a first frame and its consecutive frames.
/// Payloads longer than 4095 bytes are refused.
#[verifier::loop_isolation(false)]
pub fn build_isotp_frames(tx_id: u32, is_extended: bool, payload: &[u8]) -> (r: Result<
    Vec<Frame>,
    String,
>)
    ensures
        match r {
            Ok(frames) => payload@.len() <= 4095 && frames@.len() == isotp_frames(
                payload@,
            ).len() && (forall|i: int|
                0 <= i < frames@.len() ==> (#[trigger] frames@[i]).data@ == isotp_frames(
                    payload@,
                )[i] && frames@[i].id == tx_id && frames@[i].is_extended == is_extended),
            Err(e) => payload@.len() > 4095 && e@ == "ISO-TP payload too large"@,
        },
{
    let plen = payload.len();
    if plen <= 7 {
        let mut data: Vec<u8> = Vec::new();
        data.push(plen as u8);
        let mut i: usize = 0;
        while i < plen
            invariant
                plen == payload@.len() <= 7,
                i <= plen,
                data@.len() == 1 + i,
                data@[0] == plen as u8,
                forall|j: int| 0 <= j < i ==> data@[1 + j] == payload@[j],
            decreases plen - i,
        {
            data.push(payload[i]);
            i = i + 1;
        }
        while data.len() < 8
            invariant
                plen == payload@.len() <= 7,
                1 + plen <= data@.len() <= 8,
                data@[0] == plen as u8,
                forall|j: int| 0 <= j < plen ==> data@[1 + j] == payload@[j],
                forall|j: int| 1 + plen <= j < data@.len() ==> data@[j] == 0u8,
            decreases 8 - data@.len(),
        {
            data.push(0u8);
        }
        proof {
            assert(data@ =~= sf_data(payload@));
        }
        let mut frames: Vec<Frame> = Vec::new();
        frames.push(Frame { id: tx_id, data, timestamp_ms: 0, is_extended });
        return Ok(frames);
    }
    if plen > 4095 {
        return Err("ISO-TP payload too large".to_owned());
    }
    let n: u16 = plen as u16;
    let mut data: Vec<u8> = Vec::new();
    data.push(0x10u8 | (((n >> 8) as u8) & 0x0F));
    data.push((n & 0xFF) as u8);
    let mut i: usize = 0;
    while i < 6
        invariant
            plen == payload@.len(),
            7 < plen <= 4095,
            n == plen as u16,
            i <= 6,
            data@.len() == 2 + i,
            data@[0] == 0x10u8 | (((n >> 8) as u8) & 0x0F),
            data@[1] == (n & 0xFF) as u8,
            forall|j: int| 0 <= j < i ==> data@[2 + j] == payload@[j],
        decreases 6 - i,
    {
        data.push(payload[i]);
        i = i + 1;
    }
    proof {
        assert(data@ =~= ff_data(payload@));
    }
    let mut frames: Vec<Frame> = Vec::new();
    frames.push(Frame { id: tx_id, data, timestamp_ms: 0, is_extended });
    let ghost gframes = isotp_frames(payload@);
    proof {
        assert(gframes[0] == ff_data(payload@));
    }
    let cf_count: usize = plen / 7;
    let mut j: usize = 0;
    while j < cf_count
        invariant
            plen == payload@.len(),
            7 < plen <= 4095,
            cf_count == num_cfs(payload@.len()),
            gframes == isotp_frames(payload@),
            gframes.len() == 1 + cf_count,
            j <= cf_count,
            frames@.len() == 1 + j,
            forall|t: int| 0 <= t < frames@.len() ==> (#[trigger] frames@[t]).data@ == gframes[t]
                && frames@[t].id == tx_id && frames@[t].is_extended == is_extended,
        decreases cf_count - j,
    {
        let off: usize = 6 + 7 * j;
        proof {
            assert(7 * (plen / 7) <= plen);
            assert(7 * j <= 7 * (plen / 7 - 1)) by (nonlinear_arith)
                requires
                    j <= plen / 7 - 1,
            ;
        }
        let chunk_end: usize = if off + 7 <= plen {
            off + 7
        } else {
            plen
        };
        let seq_no: u8 = ((j + 1) % 16) as u8;
        let mut cf: Vec<u8> = Vec::new();
        cf.push(0x20u8 | seq_no);
        let mut t: usize = off;
        while t < chunk_end
            invariant
                off < chunk_end <= plen,
                plen == payload@.len(),
                off <= t <= chunk_end,
                cf@.len() == 1 + t - off,
                cf@[0] == 0x20u8 | seq_no,
                forall|q: int| 0 <= q < t - off ==> #[trigger] cf@[1 + q] == payload@[off + q],
            decreases chunk_end - t,
        {
            cf.push(payload[t]);
            t = t + 1;
        }
        while cf.len() < 8
            invariant
                off < chunk_end <= plen,
                plen == payload@.len(),
                1 + chunk_end - off <= cf@.len() <= 8,
                cf@[0] == 0x20u8 | seq_no,
                forall|q: int| 0 <= q < chunk_end - off ==> #[trigger] cf@[1 + q] == payload@[off + q],
                forall|q: int| 1 + chunk_end - off <= q < cf@.len() ==> cf@[q] == 0u8,
            decreases 8 - cf@.len(),
        {
            cf.push(0u8);
        }
        proof {
            let jj = j as int;
            let dspec = seq![0x20u8 | (((jj + 1) % 16) as u8)] + payload@.subrange(
                off as int,
                chunk_end as int,
            );
            assert(cf@.len() == 8);
            assert(seq_no == ((jj + 1) % 16) as u8);
            assert(cf@[0] == dspec[0]);
            assert(forall|q: int| 0 <= q < chunk_end - off ==> #[trigger] cf@[1 + q] == dspec[1 + q]);
            assert(cf_data(payload@, jj) == pad8(dspec));
            assert forall|q: int| 0 < q < 8 implies cf@[q] == pad8(dspec)[q] by {
                if q < 1 + chunk_end - off {
                    assert(cf@[1 + (q - 1)] == dspec[1 + (q - 1)]);
                }
            }
            assert(cf@ =~= pad8(dspec));
            assert(gframes[1 + j as int] == cf_data(payload@, j as int));
        }
        frames.push(Frame { id: tx_id, data: cf, timestamp_ms: 0, is_extended });
        j = j + 1;
    }
    Ok(frames)
}

/// How the reassembler answers one frame.
pub enum FeedOutcome {
    /// The frame was ignored or only extended the buffer.
    Pending,
    /// A first frame arrived: the caller owes the sender a flow-control
    /// frame.
    SendFlowControl,
    /// The payload is complete.
    Complete(Vec<u8>),
}

/// The executable reassembly state machine for one expected response.
pub struct Reassembler {
    started: bool,
    total: usize,
    buffer: Vec<u8>,
}

impl Reassembler {
    /// The spec image of this reassembler.
    pub closed spec fn view(&self) -> RState {
        RState { started: self.started, total: self.total as nat, buf: self.buffer@ }
    }

    pub fn new() -> (r: Reassembler)
        ensures
            r@ == reasm_init(),
    {
        let r = Reassembler { started: false, total: 0, buffer: Vec::new() };
        proof {
            assert(r@ =~~= reasm_init());
        }
        r
    }

    /// Feeds the data bytes of one id-matching frame into the reassembly,
    /// advancing it exactly as `reasm_step` describes.
    #[verifier::loop_isolation(false)]
    pub fn feed(&mut self, data: &Vec<u8>) -> (r: FeedOutcome)
        ensures
            final(self)@ == reasm_step(old(self)@, data@).0,
            match r {
                FeedOutcome::Complete(pl) => reasm_step(old(self)@, data@).1 == Some(pl@),
                _ => reasm_step(old(self)@, data@).1 is None,
            },
            r is SendFlowControl <==> (data@.len() >= 8 && data@[0] >> 4 == 1),
    {
        if data.len() == 0 {
            return FeedOutcome::Pending;
        }
        let pci = data[0] >> 4;
        if pci == 0 {
            let l = (data[0] & 0x0F) as usize;
            let end = if 1 + l <= data.len() {
                1 + l
            } else {
                data.len()
            };
            let mut out: Vec<u8> = Vec::new();
            let mut i: usize = 1;
            while i < end
                invariant
                    1 <= end <= data@.len(),
                    1 <= i <= end,
                    out@.len() == i - 1,
                    forall|j: int| 0 <= j < i - 1 ==> out@[j] == data@[1 + j],
                decreases end - i,
            {
                out.push(data[i]);
                i = i + 1;
            }
            proof {
                assert(out@ =~= data@.subrange(1, end as int));
            }
            FeedOutcome::Complete(out)
        } else if pci == 1 {
            if data.len() < 8 {
                return FeedOutcome::Pending;
            }
            self.total = (data[0] & 0x0F) as usize * 256 + data[1] as usize;
            self.started = true;
            let ghost buf0 = self.buffer@;
            let mut k: usize = 2;
            while k < 8
                invariant
                    data@.len() >= 8,
                    2 <= k <= 8,
                    self.started,
                    self.total == ((data@[0] & 0x0F) as usize) * 256 + (data@[1] as usize),
                    self.buffer@ == buf0 + data@.subrange(2, k as int),
                decreases 8 - k,
            {
                self.buffer.push(data[k]);
                k = k + 1;
                proof {
                    assert(self.buffer@ =~= buf0 + data@.subrange(2, k as int));
                }
            }
            proof {
                assert(final(self)@ =~~= reasm_step(old(self)@, data@).0);
            }
            FeedOutcome::SendFlowControl
        } else if pci == 2 {
            if !self.started || data.len() < 8 {
                return FeedOutcome::Pending;
            }
            let ghost buf0 = self.buffer@;
            let mut k: usize = 1;
            while k < 8
                invariant
                    data@.len() >= 8,
                    1 <= k <= 8,
                    self.buffer@ == buf0 + data@.subrange(1, k as int),
                    self.started == old(self).started,
                    self.total == old(self).total,
                decreases 8 - k,
            {
                self.buffer.push(data[k]);
                k = k + 1;
                proof {
                    assert(self.buffer@ =~= buf0 + data@.subrange(1, k as int));
                }
            }
            if self.buffer.len() >= self.total {
                let mut out: Vec<u8> = Vec::new();
                let mut i: usize = 0;
                while i < self.total
                    invariant
                        self.total <= self.buffer@.len(),
                        i <= self.total,
                        out@.len() == i,
                        forall|j: int| 0 <= j < i ==> out@[j] == self.buffer@[j],
                        self.started == old(self).started,
                        self@ == reasm_step(old(self)@, data@).0,
                    decreases self.total - i,
                {
                    out.push(self.buffer[i]);
                    i = i + 1;
                }
                proof {
                    assert(out@ =~= self.buffer@.take(self.total as int));
                }
                FeedOutcome::Complete(out)
            } else {
                FeedOutcome::Pending
            }
        } else {
            FeedOutcome::Pending
        }
    }
}

/// The flow-control frame a receiver answers a first frame with:
/// clear-to-send, no block limit, no separation time, zero-padded.
pub fn flow_control_frame(tx_id: u32, is_extended: bool) -> (r: Frame)
    ensures
        r.id == tx_id,
        r.is_extended == is_extended,
        r.data@ == seq![0x30u8, 0u8, 0u8, 0u8, 0u8, 0u8, 0u8, 0u8],
{
    let mut fc: Vec<u8> = Vec::new();
    fc.push(0x30u8);
    let mut z: usize = 1;
    while z < 8
        invariant
            1 <= z <= 8,
            fc@.len() == z,
            fc@[0] == 0x30u8,
            forall|q: int| 1 <= q < z ==> fc@[q] == 0u8,
        decreases 8 - z,
    {
        fc.push(0u8);
        z = z + 1;
    }
    let r = Frame { id: tx_id, data: fc, timestamp_ms: 0, is_extended };
    proof {
        assert(r.data@ =~= seq![0x30u8, 0u8, 0u8, 0u8, 0u8, 0u8, 0u8, 0u8]);
    }
    r
}

/// One half-duplex request/response exchange between a transmit id and a
/// receive id over some transport.
pub struct IsoTpLink {
    pub tx_id: u32,
    pub rx_id: u32,
    pub is_extended: bool,
}

impl IsoTpLink {
    pub fn new(tx_id: u32, rx_id: u32, is_extended: bool) -> (r: IsoTpLink)
        ensures
            r.tx_id == tx_id,
            r.rx_id == rx_id,
            r.is_extended == is_extended,
    {
        IsoTpLink { tx_id, rx_id, is_extended }
    }

    /// Sends one payload and awaits the reassembled response.
    pub fn request<T: Transport>(
        &self,
        transport: &mut T,
        payload: &[u8],
        timeout_ms: u64,
    ) -> (r: Result<Vec<u8>, String>)
        ensures
            payload@.len() > 4095 ==> r is Err,
            match r {
                Ok(resp) => payload@.len() <= 4095 && exists|fs: Seq<Seq<u8>>|
                    reasm_fold(reasm_init(), fs).1 == Some(resp@),
                Err(_) => true,
            },
    {
        self.send_payload(transport, payload)?;
        self.recv_payload(transport, timeout_ms)
    }

    /// Segments `payload` into frames and hands each to the transport.
    pub fn send_payload<T: Transport>(&self, transport: &mut T, payload: &[u8]) -> (r: Result<
        (),
        String,
    >)
        ensures
            r is Ok ==> payload@.len() <= 4095,
            payload@.len() > 4095 ==> r is Err,
    {
        let frames = match build_isotp_frames(self.tx_id, self.is_extended, payload) {
            Ok(frames) => frames,
            Err(e) => {
                return Err(e);
            },
        };
        let mut i: usize = 0;
        while i < frames.len()
            invariant
                i <= frames@.len(),
                payload@.len() <= 4095,
            decreases frames@.len() - i,
        {
            transport.send(&frames[i])?;
            i = i + 1;
        }
        Ok(())
    }

    /// Polls the transport until the deadline passes, feeding id-matching
    /// frames into a reassembler and answering first frames with a
    /// flow-control frame; a completed payload is returned, expiry of the
    /// deadline is a timeout error.
    pub fn recv_payload<T: Transport>(&self, transport: &mut T, timeout_ms: u64) -> (r: Result<
        Vec<u8>,
        String,
    >)
        ensures
            match r {
                Ok(resp) => exists|fs: Seq<Seq<u8>>| reasm_fold(reasm_init(), fs).1 == Some(
                    resp@,
                ),
                Err(_) => true,
            },
    {
        let start: u64 = now_millis();
        let deadline: u128 = start as u128 + timeout_ms as u128;
        let mut reasm = Reassembler::new();
        let ghost mut fs: Seq<Seq<u8>> = Seq::empty();
        let mut now_ms: u64 = start;
        let mut polls_left: u64 = timeout_ms / 10 + 1;
        while polls_left > 0 && (now_ms as u128) < deadline
            invariant
                reasm_fold(reasm_init(), fs).0 == reasm@,
                reasm_fold(reasm_init(), fs).1 is None,
            decreases polls_left,
        {
            polls_left = polls_left - 1;
            let remaining: u128 = deadline - now_ms as u128;
            let poll: u64 = if remaining < 10 {
                10
            } else if remaining > 250 {
                250
            } else {
                remaining as u64
            };
            let got = transport.recv(poll)?;
            match got {
                Some(frame) => {
                    if frame.id == self.rx_id {
                        proof {
                            lemma_reasm_fold_snoc(reasm_init(), fs, frame.data@);
                        }
                        let outcome = reasm.feed(&frame.data);
                        proof {
                            fs = fs.push(frame.data@);
                        }
                        match outcome {
                            FeedOutcome::Complete(payload) => {
                                return Ok(payload);
                            },
                            FeedOutcome::SendFlowControl => {
                                let flow = flow_control_frame(self.tx_id, self.is_extended);
                                transport.send(&flow)?;
                            },
                            FeedOutcome::Pending => {},
                        }
                    }
                },
                None => {},
            }
            now_ms = now_millis();
        }
        Err("ISO-TP timeout waiting for response".to_owned())
    }
}

} // verus!
