use vstd::prelude::*;
use crate::app_state::DtcInfo;
use crate::isotp::{reasm_fold, reasm_init, IsoTpLink};
use crate::text::{hex_char, hex_char_of, is_upper_hex_digit, push_char};
use crate::transport::Transport;

verus! {

/// What String::from_utf8_lossy yields on the given bytes; a function of
/// the bytes alone.
pub uninterp spec fn utf8_lossy_chars(b: Seq<u8>) -> Seq<char>;

/// What str::trim leaves of the given characters; a function of the
/// characters alone.
pub uninterp spec fn trimmed_chars(s: Seq<char>) -> Seq<char>;

/// Relies on String::from_utf8_lossy: decodes UTF-8, replacing invalid
/// sequences; the result depends on the bytes alone.
#[verifier::external_body]
fn utf8_lossy(bytes: &[u8]) -> (r: String)
    ensures
        r@ == utf8_lossy_chars(bytes@),
{
    String::from_utf8_lossy(bytes).into_owned()
}

/// Relies on str::trim: removes leading and trailing whitespace; the result
/// depends on the characters alone.
#[verifier::external_body]
fn trim_string(s: &str) -> (r: String)
    ensures
        r@ == trimmed_chars(s@),
{
    s.trim().to_owned()
}

/// The 24-bit value a three-byte trouble-code record encodes.
pub open spec fn dtc_raw(b0: u8, b1: u8, b2: u8) -> u32 {
    ((b0 as u32) << 16) | ((b1 as u32) << 8) | (b2 as u32)
}

/// The system letter selected by the top two bits.
pub open spec fn dtc_letter(raw: u32) -> char {
    let sel = (raw >> 22) & 0x3;
    if sel == 0 {
        'P'
    } else if sel == 1 {
        'C'
    } else if sel == 2 {
        'B'
    } else {
        'U'
    }
}

/// The canonical seven-character code of a trouble-code record: the system
/// letter, then the remaining 22 bits as six uppercase hex digits.
pub open spec fn dtc_code_chars(b0: u8, b1: u8, b2: u8) -> Seq<char> {
    let raw = dtc_raw(b0, b1, b2);
    let v = raw & 0x3FFFFF;
    seq![
        dtc_letter(raw),
        hex_char(((v >> 20) & 0xF) as nat),
        hex_char(((v >> 16) & 0xF) as nat),
        hex_char(((v >> 12) & 0xF) as nat),
        hex_char(((v >> 8) & 0xF) as nat),
        hex_char(((v >> 4) & 0xF) as nat),
        hex_char((v & 0xF) as nat),
    ]
}

/// The decoded code is always seven characters: one of the four system
/// letters, then six uppercase hex digits.
pub proof fn lemma_dtc_code_shape(b0: u8, b1: u8, b2: u8)
    ensures
        dtc_code_chars(b0, b1, b2).len() == 7,
        dtc_code_chars(b0, b1, b2)[0] == 'P' || dtc_code_chars(b0, b1, b2)[0] == 'C'
            || dtc_code_chars(b0, b1, b2)[0] == 'B' || dtc_code_chars(b0, b1, b2)[0] == 'U',
        forall|i: int| 1 <= i < 7 ==> is_upper_hex_digit(#[trigger] dtc_code_chars(b0, b1, b2)[i]),
{
    let raw = dtc_raw(b0, b1, b2);
    let v = raw & 0x3FFFFF;
    assert((v >> 20) & 0xF < 16) by (bit_vector);
    assert((v >> 16) & 0xF < 16) by (bit_vector);
    assert((v >> 12) & 0xF < 16) by (bit_vector);
    assert((v >> 8) & 0xF < 16) by (bit_vector);
    assert((v >> 4) & 0xF < 16) by (bit_vector);
    assert(v & 0xF < 16) by (bit_vector);
}

/// Decodes one three-byte trouble-code record into its textual code.
pub fn decode_dtc(bytes: [u8; 3]) -> (r: String)
    ensures
        r@ == dtc_code_chars(bytes@[0], bytes@[1], bytes@[2]),
{
    let b0 = bytes[0];
    let b1 = bytes[1];
    let b2 = bytes[2];
    let raw: u32 = ((b0 as u32) << 16) | ((b1 as u32) << 8) | (b2 as u32);
    let sel = (raw >> 22) & 0x3;
    let letter = if sel == 0 {
        'P'
    } else if sel == 1 {
        'C'
    } else if sel == 2 {
        'B'
    } else {
        'U'
    };
    let v = raw & 0x3FFFFF;
    proof {
        assert((v >> 20) & 0xF < 16) by (bit_vector);
        assert((v >> 16) & 0xF < 16) by (bit_vector);
        assert((v >> 12) & 0xF < 16) by (bit_vector);
        assert((v >> 8) & 0xF < 16) by (bit_vector);
        assert((v >> 4) & 0xF < 16) by (bit_vector);
        assert(v & 0xF < 16) by (bit_vector);
    }
    let mut s = String::new();
    push_char(&mut s, letter);
    push_char(&mut s, hex_char_of((v >> 20) & 0xF));
    push_char(&mut s, hex_char_of((v >> 16) & 0xF));
    push_char(&mut s, hex_char_of((v >> 12) & 0xF));
    push_char(&mut s, hex_char_of((v >> 8) & 0xF));
    push_char(&mut s, hex_char_of((v >> 4) & 0xF));
    push_char(&mut s, hex_char_of(v & 0xF));
    proof {
        assert(s@ =~= dtc_code_chars(bytes@[0], bytes@[1], bytes@[2]));
    }
    s
}

/// A positive answer to the trouble-code read: the response service id with
/// at least the subfunction echo after it.
pub open spec fn valid_dtc_response(r: Seq<u8>) -> bool {
    r.len() >= 2 && r[0] == 0x59
}

/// The codes of the records from index `i` onward, three bytes each,
/// all-zero padding records skipped; a trailing partial record is ignored.
pub open spec fn dtc_codes_from(r: Seq<u8>, i: int) -> Seq<Seq<char>>
    decreases r.len() - i when i >= 0
{
    if i < 0 || i + 3 > r.len() {
        Seq::empty()
    } else {
        let rest = dtc_codes_from(r, i + 3);
        if r[i] == 0 && r[i + 1] == 0 && r[i + 2] == 0 {
            rest
        } else {
            seq![dtc_code_chars(r[i], r[i + 1], r[i + 2])] + rest
        }
    }
}

/// The record list matches the codes: same length, each record carrying the
/// code, the fixed placeholder description, and the active status.
pub open spec fn dtc_records_match(dtcs: Seq<DtcInfo>, codes: Seq<Seq<char>>) -> bool {
    dtcs.len() == codes.len() && (forall|i: int|
        0 <= i < dtcs.len() ==> (#[trigger] dtcs[i]).code@ == codes[i] && dtcs[i].description@
            == "DTC description unavailable"@ && dtcs[i].status@ == "active"@)
}

/// Decodes a trouble-code response: rejects anything that is not a positive
/// answer, then decodes the records that follow the availability mask.
/// The service id, subfunction echo and availability-mask byte come first,
/// so the three-byte records start at the fourth byte; each decodes to a
/// system letter and the six uppercase hex digits of its low 22 bits.
#[verifier::loop_isolation(false)]
pub fn parse_dtc_response(response: &Vec<u8>) -> (r: Result<Vec<DtcInfo>, String>)
    ensures
        r is Ok <==> valid_dtc_response(response@),
        match r {
            Ok(dtcs) => dtc_records_match(dtcs@, dtc_codes_from(response@, 3)),
            Err(e) => e@ == "Unexpected DTC response"@,
        },
{
    if response.len() < 2 || response[0] != 0x59 {
        return Err("Unexpected DTC response".to_owned());
    }
    let mut dtcs: Vec<DtcInfo> = Vec::new();
    let mut index: usize = 3;
    let ghost all = dtc_codes_from(response@, 3);
    while index < response.len() && response.len() - index >= 3
        invariant
            3 <= index <= response@.len() + 3,
            all == dtc_codes_from(response@, 3),
            all.len() >= dtcs@.len(),
            dtc_records_match(dtcs@, all.take(dtcs@.len() as int)),
            dtc_codes_from(response@, index as int) =~= all.skip(dtcs@.len() as int),
        decreases response@.len() + 3 - index,
    {
        let ghost oi = index as int;
        let b = [response[index], response[index + 1], response[index + 2]];
        proof {
            assert(b@[0] == response@[oi]);
            assert(b@[1] == response@[oi + 1]);
            assert(b@[2] == response@[oi + 2]);
        }
        let ghost prev_count = dtcs@.len() as int;
        if b[0] == 0 && b[1] == 0 && b[2] == 0 {
            index = index + 3;
            proof {
                assert(dtc_codes_from(response@, oi) == dtc_codes_from(response@, oi + 3));
                assert(dtc_codes_from(response@, index as int) =~= all.skip(prev_count));
            }
        } else {
            let code = decode_dtc(b);
            dtcs.push(
                DtcInfo {
                    code,
                    description: "DTC description unavailable".to_owned(),
                    status: "active".to_owned(),
                },
            );
            index = index + 3;
            proof {
                let head = dtc_code_chars(response@[oi], response@[oi + 1], response@[oi + 2]);
                assert(dtc_codes_from(response@, oi) == seq![head] + dtc_codes_from(
                    response@,
                    oi + 3,
                ));
                assert(all.skip(prev_count)[0] == head);
                assert(all[prev_count] == head);
                assert(code@ == head);
                assert(dtc_records_match(dtcs@, all.take(dtcs@.len() as int)));
                assert((seq![head] + dtc_codes_from(response@, oi + 3)).drop_first()
                    =~= dtc_codes_from(response@, oi + 3));
                assert(dtc_codes_from(response@, index as int) =~= all.skip(dtcs@.len() as int));
            }
        }
    }
    proof {
        assert(dtc_codes_from(response@, index as int) =~= Seq::<Seq<char>>::empty());
        assert(all.take(dtcs@.len() as int) =~= all);
    }
    Ok(dtcs)
}

/// A positive answer to the clear request: the response service id first.
pub open spec fn valid_clear_response(r: Seq<u8>) -> bool {
    r.len() > 0 && r[0] == 0x54
}

/// Validates a clear-codes response: accepts exactly the positive answers.
pub fn parse_clear_response(response: &Vec<u8>) -> (r: Result<(), String>)
    ensures
        r is Ok <==> valid_clear_response(response@),
        r matches Err(e) ==> e@ == "Clear DTCs failed"@,
{
    if response.len() == 0 || response[0] != 0x54 {
        return Err("Clear DTCs failed".to_owned());
    }
    Ok(())
}

/// Validates a VIN read response and extracts the identifier text: the
/// payload after the three header bytes, UTF-8 decoded and trimmed.
pub fn parse_vin_response(response: &Vec<u8>) -> (r: Result<String, String>)
    ensures
        r is Ok <==> response@.len() >= 3 && response@[0] == 0x62,
        match r {
            Ok(vin) => vin@ == trimmed_chars(utf8_lossy_chars(response@.skip(3))),
            Err(e) => e@ == "Unexpected VIN response"@,
        },
{
    if response.len() < 3 || response[0] != 0x62 {
        return Err("Unexpected VIN response".to_owned());
    }
    let mut tail: Vec<u8> = Vec::new();
    let mut i: usize = 3;
    while i < response.len()
        invariant
            3 <= i <= response@.len(),
            tail@.len() == i - 3,
            forall|j: int| 0 <= j < i - 3 ==> tail@[j] == response@[3 + j],
        decreases response@.len() - i,
    {
        tail.push(response[i]);
        i = i + 1;
    }
    proof {
        assert(tail@ =~= response@.skip(3));
    }
    let text = utf8_lossy(tail.as_slice());
    Ok(trim_string(text.as_str()))
}

/// The UDS request/response client: owns the transport and the retry
/// policy, and drives one ISO-TP exchange per service call.
pub struct UdsClient<T: Transport> {
    transport: T,
    timeout_ms: u64,
    retries: u8,
}

impl<T: Transport> UdsClient<T> {
    /// The transport the client currently owns.
    pub closed spec fn transport_view(&self) -> T {
        self.transport
    }

    pub fn new(transport: T, timeout_ms: u64, retries: u8) -> (r: UdsClient<T>)
        ensures
            r.transport_view() == transport,
    {
        UdsClient { transport, timeout_ms, retries }
    }

    /// Opens the underlying transport.
    pub fn open(&mut self) -> (r: Result<(), String>) {
        self.transport.open()
    }

    /// Closes the underlying transport.
    pub fn close(&mut self) {
        self.transport.close();
    }

    /// Reads the vehicle identification number from the module listening on
    /// `tx_id`/`rx_id`.
    pub fn read_vin(&mut self, tx_id: u32, rx_id: u32) -> (r: Result<String, String>)
        ensures
            match r {
                Ok(vin) => exists|resp: Seq<u8>|
                    resp.len() >= 3 && resp[0] == 0x62 && vin@ == trimmed_chars(
                        utf8_lossy_chars(#[trigger] resp.skip(3)),
                    ),
                Err(_) => true,
            },
    {
        let payload: Vec<u8> = vec![0x22u8, 0xF1u8, 0x90u8];
        let response = self.request(tx_id, rx_id, payload.as_slice())?;
        let vin = parse_vin_response(&response)?;
        proof {
            assert(response@.len() >= 3 && response@[0] == 0x62 && vin@ == trimmed_chars(
                utf8_lossy_chars(response@.skip(3)),
            ));
        }
        Ok(vin)
    }

    /// Sends the keep-alive probe; succeeds exactly when some non-empty
    /// response arrived.
    pub fn tester_present(&mut self, tx_id: u32, rx_id: u32) -> (r: Result<(), String>)
        ensures
            match r {
                Ok(_) => exists|fs: Seq<Seq<u8>>|
                    (#[trigger] reasm_fold(reasm_init(), fs).1) matches Some(resp)
                        && resp.len() > 0,
                Err(_) => true,
            },
    {
        let payload: Vec<u8> = vec![0x3Eu8, 0x00u8];
        let response = self.request(tx_id, rx_id, payload.as_slice())?;
        if response.len() == 0 {
            return Err("No response to tester present".to_owned());
        }
        Ok(())
    }

    /// Reads and decodes the stored trouble codes of one module.
    pub fn read_dtcs(&mut self, tx_id: u32, rx_id: u32) -> (r: Result<Vec<DtcInfo>, String>)
        ensures
            match r {
                Ok(dtcs) => exists|resp: Seq<u8>| valid_dtc_response(resp) && dtc_records_match(
                    dtcs@,
                    dtc_codes_from(resp, 3),
                ),
                Err(_) => true,
            },
    {
        let payload: Vec<u8> = vec![0x19u8, 0x02u8, 0xFFu8];
        let response = self.request(tx_id, rx_id, payload.as_slice())?;
        let dtcs = parse_dtc_response(&response)?;
        proof {
            assert(valid_dtc_response(response@) && dtc_records_match(
                dtcs@,
                dtc_codes_from(response@, 3),
            ));
        }
        Ok(dtcs)
    }

    /// Asks one module to erase all stored trouble codes; succeeds exactly
    /// when the module confirmed with a positive answer.
    pub fn clear_dtcs(&mut self, tx_id: u32, rx_id: u32) -> (r: Result<(), String>)
        ensures
            match r {
                Ok(_) => exists|fs: Seq<Seq<u8>>|
                    (#[trigger] reasm_fold(reasm_init(), fs).1) matches Some(resp)
                        && valid_clear_response(resp),
                Err(_) => true,
            },
    {
        let payload: Vec<u8> = vec![0x14u8, 0xFFu8, 0xFFu8, 0xFFu8];
        let response = self.request(tx_id, rx_id, payload.as_slice())?;
        parse_clear_response(&response)?;
        Ok(())
    }

    /// One UDS exchange with the configured retry policy: a fresh ISO-TP
    /// link per attempt, the last error surfacing when every attempt fails.
    fn request(&mut self, tx_id: u32, rx_id: u32, payload: &[u8]) -> (r: Result<Vec<u8>, String>)
        ensures
            match r {
                Ok(resp) => exists|fs: Seq<Seq<u8>>| reasm_fold(reasm_init(), fs).1 == Some(
                    resp@,
                ),
                Err(_) => true,
            },
    {
        let mut last_err: Option<String> = None;
        let attempts: u16 = self.retries as u16 + 1;
        let timeout_ms = self.timeout_ms;
        let mut attempt: u16 = 0;
        while attempt < attempts
            invariant
                attempt <= attempts,
            decreases attempts - attempt,
        {
            let link = IsoTpLink::new(tx_id, rx_id, false);
            match link.request(&mut self.transport, payload, timeout_ms) {
                Ok(response) => {
                    return Ok(response);
                },
                Err(err) => {
                    last_err = Some(err);
                },
            }
            attempt = attempt + 1;
        }
        match last_err {
            Some(err) => Err(err),
            None => Err("UDS request failed".to_owned()),
        }
    }

    /// Consumes the client and hands the transport it owns back for reuse.
    pub fn into_transport(self) -> (r: T)
        ensures
            r == self.transport_view(),
    {
        self.transport
    }
}

} // verus!
