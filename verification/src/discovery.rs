use vstd::prelude::*;
use crate::app_state::{ModuleInfo, ModuleStatus};
use crate::text::can_id_chars;
use crate::text::format_can_id;
use crate::transport::Transport;
use crate::uds::UdsClient;

verus! {

/// A probe target: the request/response id pair and the descriptive fields
/// a responding module is recorded with.
pub struct ModuleCandidate {
    pub tx_id: u32,
    pub rx_id: u32,
    pub name: String,
    pub bus: String,
    pub category: String,
}

/// What the offline VIN decode yields: the world manufacturer identifier
/// and the model year.
pub struct VinInfo {
    pub wmi: String,
    pub year: String,
}

/// The model year encoded at VIN position 10.
pub open spec fn year_chars(c: char) -> Seq<char> {
    if c == 'K' {
        "2019"@
    } else if c == 'L' {
        "2020"@
    } else if c == 'M' {
        "2021"@
    } else if c == 'N' {
        "2022"@
    } else if c == 'P' {
        "2023"@
    } else if c == 'R' {
        "2024"@
    } else {
        "Unknown"@
    }
}

/// Decodes a VIN offline: the first three characters are the world
/// manufacturer identifier, position 10 selects the model year. VINs too
/// short to carry position 10 decode to nothing.
pub fn decode_vin(vin: &str) -> (r: Option<VinInfo>)
    ensures
        r is Some <==> vin@.len() >= 10,
        match r {
            Some(info) => info.wmi@ == vin@.take(3) && info.year@ == year_chars(vin@[9]),
            None => true,
        },
{
    let n = vin.unicode_len();
    if n < 3 {
        return None;
    }
    if n < 10 {
        return None;
    }
    let wmi = vin.substring_char(0, 3).to_owned();
    proof {
        assert(vin@.subrange(0, 3) =~= vin@.take(3));
    }
    let yc = vin.get_char(9);
    let year: &str = if yc == 'K' {
        "2019"
    } else if yc == 'L' {
        "2020"
    } else if yc == 'M' {
        "2021"
    } else if yc == 'N' {
        "2022"
    } else if yc == 'P' {
        "2023"
    } else if yc == 'R' {
        "2024"
    } else {
        "Unknown"
    };
    Some(VinInfo { wmi, year: year.to_owned() })
}

/// Gateway inventory queries are OEM-specific and none are issued: the
/// result is always empty.
pub fn gateway_inventory<T: Transport>(_uds: &mut UdsClient<T>) -> (r: Vec<ModuleInfo>)
    ensures
        r@.len() == 0,
{
    Vec::new()
}

/// The fixed seed candidates probed before the sweep: powertrain, chassis
/// and body controllers at their customary diagnostic ids.
pub fn default_candidates() -> (r: Vec<ModuleCandidate>)
    ensures
        r@.len() == 4,
        r@[0].tx_id == 0x7E0 && r@[0].rx_id == 0x7E8 && r@[0].name@ == "PCM"@ && r@[0].bus@
            == "HS-CAN"@ && r@[0].category@ == "Powertrain"@,
        r@[1].tx_id == 0x7E1 && r@[1].rx_id == 0x7E9 && r@[1].name@ == "TCM"@ && r@[1].bus@
            == "HS-CAN"@ && r@[1].category@ == "Powertrain"@,
        r@[2].tx_id == 0x726 && r@[2].rx_id == 0x72E && r@[2].name@ == "ABS"@ && r@[2].bus@
            == "HS-CAN"@ && r@[2].category@ == "Chassis"@,
        r@[3].tx_id == 0x727 && r@[3].rx_id == 0x72F && r@[3].name@ == "BCM"@ && r@[3].bus@
            == "MS-CAN"@ && r@[3].category@ == "Body"@,
{
    let mut v: Vec<ModuleCandidate> = Vec::new();
    v.push(
        ModuleCandidate {
            tx_id: 0x7E0,
            rx_id: 0x7E8,
            name: "PCM".to_owned(),
            bus: "HS-CAN".to_owned(),
            category: "Powertrain".to_owned(),
        },
    );
    v.push(
        ModuleCandidate {
            tx_id: 0x7E1,
            rx_id: 0x7E9,
            name: "TCM".to_owned(),
            bus: "HS-CAN".to_owned(),
            category: "Powertrain".to_owned(),
        },
    );
    v.push(
        ModuleCandidate {
            tx_id: 0x726,
            rx_id: 0x72E,
            name: "ABS".to_owned(),
            bus: "HS-CAN".to_owned(),
            category: "Chassis".to_owned(),
        },
    );
    v.push(
        ModuleCandidate {
            tx_id: 0x727,
            rx_id: 0x72F,
            name: "BCM".to_owned(),
            bus: "MS-CAN".to_owned(),
            category: "Body".to_owned(),
        },
    );
    v
}

/// Copies one candidate.
fn clone_candidate(c: &ModuleCandidate) -> (r: ModuleCandidate)
    ensures
        r.tx_id == c.tx_id,
        r.rx_id == c.rx_id,
        r.name@ == c.name@,
        r.bus@ == c.bus@,
        r.category@ == c.category@,
{
    ModuleCandidate {
        tx_id: c.tx_id,
        rx_id: c.rx_id,
        name: c.name.clone(),
        bus: c.bus.clone(),
        category: c.category.clone(),
    }
}

/// Whether `v` holds `x`.
fn contains_u32(v: &Vec<u32>, x: u32) -> (r: bool)
    ensures
        r == exists|i: int| 0 <= i < v@.len() && v@[i] == x,
{
    let mut i: usize = 0;
    while i < v.len()
        invariant
            i <= v@.len(),
            forall|j: int| 0 <= j < i ==> v@[j] != x,
        decreases v@.len() - i,
    {
        if v[i] == x {
            return true;
        }
        i = i + 1;
    }
    false
}

/// A candidate carries exactly the given ids and descriptive fields.
pub open spec fn cand_fields(
    c: ModuleCandidate,
    tx: u32,
    rx: u32,
    name: Seq<char>,
    bus: Seq<char>,
    cat: Seq<char>,
) -> bool {
    c.tx_id == tx && c.rx_id == rx && c.name@ == name && c.bus@ == bus && c.category@ == cat
}

/// Two candidates carry the same ids and descriptive fields.
pub open spec fn cand_like(a: ModuleCandidate, b: ModuleCandidate) -> bool {
    a.tx_id == b.tx_id && a.rx_id == b.rx_id && a.name@ == b.name@ && a.bus@ == b.bus@
        && a.category@ == b.category@
}

/// A recorded module carries exactly a candidate's ids and descriptive
/// fields.
pub open spec fn matches_candidate(m: ModuleInfo, c: ModuleCandidate) -> bool {
    m.tx_id == c.tx_id && m.rx_id == c.rx_id && m.name@ == c.name@ && m.bus@ == c.bus@
        && m.category@ == c.category@
}

/// A recorded module carries exactly the given ids and descriptive fields.
pub open spec fn seed_shape(
    m: ModuleInfo,
    tx: u32,
    rx: u32,
    name: Seq<char>,
    bus: Seq<char>,
    cat: Seq<char>,
) -> bool {
    m.tx_id == tx && m.rx_id == rx && m.name@ == name && m.bus@ == bus && m.category@ == cat
}

/// An entry of the candidate pass comes from one of the four seed
/// candidates or from a caller-supplied extra, fields and ids included.
pub open spec fn from_candidate_pass(m: ModuleInfo, extras: Seq<ModuleCandidate>) -> bool {
    ||| seed_shape(m, 0x7E0, 0x7E8, "PCM"@, "HS-CAN"@, "Powertrain"@)
    ||| seed_shape(m, 0x7E1, 0x7E9, "TCM"@, "HS-CAN"@, "Powertrain"@)
    ||| seed_shape(m, 0x726, 0x72E, "ABS"@, "HS-CAN"@, "Chassis"@)
    ||| seed_shape(m, 0x727, 0x72F, "BCM"@, "MS-CAN"@, "Body"@)
    ||| exists|j: int| 0 <= j < extras.len() && matches_candidate(m, #[trigger] extras[j])
}

/// The shape every sweep-discovered entry has: an id in the sweep range,
/// the response id eight above it, and placeholder descriptive fields.
pub open spec fn sweep_entry_shape(m: ModuleInfo) -> bool {
    0x700 <= m.tx_id <= 0x7E7 && m.rx_id == m.tx_id + 8 && m.bus@ == "Unknown"@ && m.category@
        == "Unknown"@ && m.name@ == "ECU "@ + can_id_chars(m.tx_id as nat)
}

/// The discovery result splits at `k`: entries before `k` carry the fields
/// of a seed or extra candidate, entries from `k` on came from the sweep,
/// no sweep entry repeats the id of a responding candidate or of another
/// sweep entry.
pub open spec fn sweep_split_at(r: Seq<ModuleInfo>, extras: Seq<ModuleCandidate>, k: int) -> bool {
    0 <= k <= r.len() && (forall|i: int|
        0 <= i < k ==> from_candidate_pass(#[trigger] r[i], extras)) && (forall|i: int|
        k <= i < r.len() ==> sweep_entry_shape(#[trigger] r[i])) && (forall|i: int, j: int|
        k <= i < r.len() && 0 <= j < k ==> (#[trigger] r[i]).tx_id != (#[trigger] r[j]).tx_id) && (
    forall|i: int, j: int|
        k <= i < j < r.len() ==> (#[trigger] r[i]).tx_id != (#[trigger] r[j]).tx_id)
}

/// Probes the seed candidates plus any extras, then sweeps the diagnostic
/// id range for responders not already found among the responding
/// candidates. Every recorded module carries its canonical id, a responding
/// status and a zero code count; the sweep never re-reports an id that a
/// responding candidate already claimed, nor reports any id twice.
#[verifier::loop_isolation(false)]
pub fn discover_modules<T: Transport>(
    uds: &mut UdsClient<T>,
    extra_candidates: &[ModuleCandidate],
) -> (r: Vec<ModuleInfo>)
    ensures
        forall|i: int| 0 <= i < r@.len() ==> (#[trigger] r@[i]).id@ == can_id_chars(
            r@[i].tx_id as nat,
        ) && r@[i].status == ModuleStatus::Responding && r@[i].dtc_count == 0,
        exists|k: int| #[trigger] sweep_split_at(r@, extra_candidates@, k),
{
    let mut modules: Vec<ModuleInfo> = Vec::new();
    let mut candidates = default_candidates();
    let mut e: usize = 0;
    while e < extra_candidates.len()
        invariant
            e <= extra_candidates@.len(),
            candidates@.len() == 4 + e,
            cand_fields(candidates@[0], 0x7E0, 0x7E8, "PCM"@, "HS-CAN"@, "Powertrain"@),
            cand_fields(candidates@[1], 0x7E1, 0x7E9, "TCM"@, "HS-CAN"@, "Powertrain"@),
            cand_fields(candidates@[2], 0x726, 0x72E, "ABS"@, "HS-CAN"@, "Chassis"@),
            cand_fields(candidates@[3], 0x727, 0x72F, "BCM"@, "MS-CAN"@, "Body"@),
            forall|j: int| 0 <= j < e ==> cand_like(
                #[trigger] candidates@[4 + j],
                extra_candidates@[j],
            ),
        decreases extra_candidates@.len() - e,
    {
        candidates.push(clone_candidate(&extra_candidates[e]));
        e = e + 1;
    }
    let mut seen: Vec<u32> = Vec::new();
    let mut c: usize = 0;
    while c < candidates.len()
        invariant
            c <= candidates@.len(),
            seen@.len() == modules@.len(),
            forall|j: int| 0 <= j < modules@.len() ==> seen@[j] == (#[trigger] modules@[j]).tx_id,
            forall|i: int| 0 <= i < modules@.len() ==> (#[trigger] modules@[i]).id@
                == can_id_chars(modules@[i].tx_id as nat) && modules@[i].status
                == ModuleStatus::Responding && modules@[i].dtc_count == 0,
            forall|i: int| 0 <= i < modules@.len() ==> from_candidate_pass(
                #[trigger] modules@[i],
                extra_candidates@,
            ),
        decreases candidates@.len() - c,
    {
        let cand = &candidates[c];
        let tx_id = cand.tx_id;
        let rx_id = cand.rx_id;
        if uds.tester_present(tx_id, rx_id).is_ok() {
            let id = format_can_id(tx_id);
            let entry = ModuleInfo {
                id,
                name: cand.name.clone(),
                bus: cand.bus.clone(),
                category: cand.category.clone(),
                tx_id,
                rx_id,
                status: ModuleStatus::Responding,
                dtc_count: 0,
            };
            proof {
                if c >= 4 {
                    assert(cand_like(candidates@[4 + (c - 4)], extra_candidates@[c - 4]));
                    assert(matches_candidate(entry, extra_candidates@[c - 4]));
                }
                assert(from_candidate_pass(entry, extra_candidates@));
            }
            modules.push(entry);
            seen.push(tx_id);
        }
        c = c + 1;
    }
    let ghost k0 = modules@.len() as int;
    let mut tx: u32 = 0x700;
    while tx <= 0x7E7
        invariant
            0x700 <= tx <= 0x7E8,
            k0 <= modules@.len(),
            seen@.len() == k0,
            forall|j: int| 0 <= j < k0 ==> seen@[j] == (#[trigger] modules@[j]).tx_id,
            forall|i: int| 0 <= i < modules@.len() ==> (#[trigger] modules@[i]).id@
                == can_id_chars(modules@[i].tx_id as nat) && modules@[i].status
                == ModuleStatus::Responding && modules@[i].dtc_count == 0,
            forall|i: int| 0 <= i < k0 ==> from_candidate_pass(
                #[trigger] modules@[i],
                extra_candidates@,
            ),
            forall|i: int| k0 <= i < modules@.len() ==> sweep_entry_shape(#[trigger] modules@[i]),
            forall|i: int| k0 <= i < modules@.len() ==> (#[trigger] modules@[i]).tx_id < tx,
            forall|i: int, j: int| k0 <= i < modules@.len() && 0 <= j < k0 ==> (
            #[trigger] modules@[i]).tx_id != (#[trigger] modules@[j]).tx_id,
            forall|i: int, j: int| k0 <= i < j < modules@.len() ==> (#[trigger] modules@[i]).tx_id
                != (#[trigger] modules@[j]).tx_id,
        decreases 0x7E8 - tx,
    {
        if !contains_u32(&seen, tx) {
            let rx_id = tx + 0x8;
            if uds.tester_present(tx, rx_id).is_ok() {
                let id = format_can_id(tx);
                let mut name = "ECU ".to_owned();
                name.append(id.as_str());
                modules.push(
                    ModuleInfo {
                        id,
                        name,
                        bus: "Unknown".to_owned(),
                        category: "Unknown".to_owned(),
                        tx_id: tx,
                        rx_id,
                        status: ModuleStatus::Responding,
                        dtc_count: 0,
                    },
                );
            }
        }
        tx = tx + 1;
    }
    proof {
        assert(sweep_split_at(modules@, extra_candidates@, k0));
    }
    modules
}

} // verus!
