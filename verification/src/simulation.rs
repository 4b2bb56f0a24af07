use vstd::prelude::*;
use crate::app_state::{DtcInfo, ModuleInfo, ModuleStatus, clone_dtcs, dtcs_model};

verus! {

/// The vehicle described by a scripted session.
pub struct VehicleInfo {
    pub make: String,
    pub model: String,
    pub year: String,
    pub trim: String,
}

/// One scripted module: its descriptive fields, id pair and stored codes.
pub struct SimulationModule {
    pub id: String,
    pub name: String,
    pub bus: String,
    pub category: String,
    pub tx_id: u32,
    pub rx_id: u32,
    pub dtcs: Vec<DtcInfo>,
}

/// A scripted session: the vehicle, its VIN and its modules.
pub struct SimulationSession {
    pub vin: String,
    pub vehicle: VehicleInfo,
    pub modules: Vec<SimulationModule>,
}

impl SimulationSession {
    /// The scripted modules as discovered-module records, each already
    /// carrying its stored code count.
    pub fn module_infos(&self) -> (r: Vec<ModuleInfo>)
        ensures
            r@.len() == self.modules@.len(),
            forall|i: int| 0 <= i < r@.len() ==> (#[trigger] r@[i]).id@ == self.modules@[i].id@
                && r@[i].name@ == self.modules@[i].name@ && r@[i].bus@ == self.modules@[i].bus@
                && r@[i].category@ == self.modules@[i].category@ && r@[i].tx_id
                == self.modules@[i].tx_id && r@[i].rx_id == self.modules@[i].rx_id && r@[i].status
                == ModuleStatus::Responding && r@[i].dtc_count == self.modules@[i].dtcs@.len(),
    {
        let mut out: Vec<ModuleInfo> = Vec::new();
        let mut i: usize = 0;
        while i < self.modules.len()
            invariant
                i <= self.modules@.len(),
                out@.len() == i,
                forall|j: int| 0 <= j < i ==> (#[trigger] out@[j]).id@ == self.modules@[j].id@
                    && out@[j].name@ == self.modules@[j].name@ && out@[j].bus@
                    == self.modules@[j].bus@ && out@[j].category@ == self.modules@[j].category@
                    && out@[j].tx_id == self.modules@[j].tx_id && out@[j].rx_id
                    == self.modules@[j].rx_id && out@[j].status == ModuleStatus::Responding
                    && out@[j].dtc_count == self.modules@[j].dtcs@.len(),
            decreases self.modules@.len() - i,
        {
            let m = &self.modules[i];
            out.push(
                ModuleInfo {
                    id: m.id.clone(),
                    name: m.name.clone(),
                    bus: m.bus.clone(),
                    category: m.category.clone(),
                    tx_id: m.tx_id,
                    rx_id: m.rx_id,
                    status: ModuleStatus::Responding,
                    dtc_count: m.dtcs.len(),
                },
            );
            i = i + 1;
        }
        out
    }

    /// Deep-copies one scripted module's code list.
    pub fn dtcs_of(&self, i: usize) -> (r: Vec<DtcInfo>)
        requires
            i < self.modules@.len(),
        ensures
            dtcs_model(r@) == dtcs_model(self.modules@[i as int].dtcs@),
    {
        clone_dtcs(&self.modules[i].dtcs)
    }
}

} // verus!
