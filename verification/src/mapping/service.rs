//! The current list of device mappings, as one service holds it.
use vstd::prelude::*;
use crate::config::{
    spec_find_fsct_by_roon, spec_find_roon_by_fsct, spec_remove_by_roon, spec_set_first_active,
    spec_upsert, for_fsct, for_roon, roon_key, DeviceMapping, DeviceMappings, FsctDevice,
    RoonOutput,
};

verus! {

/// Service for managing device mappings.
pub struct MappingService {
    mappings: DeviceMappings,
}

impl View for MappingService {
    type V = Seq<DeviceMapping>;

    closed spec fn view(&self) -> Seq<DeviceMapping> {
        self.mappings.mappings@
    }
}

impl MappingService {
    pub fn new() -> (s: Self)
        ensures
            s@ == Seq::<DeviceMapping>::empty(),
    {
        Self { mappings: DeviceMappings::new() }
    }

    pub fn from_mappings(mappings: DeviceMappings) -> (s: Self)
        ensures
            s@ == mappings.mappings@,
    {
        Self { mappings }
    }

    /// Get a copy of current mappings for persistence.
    pub fn get_mappings(&self) -> (m: DeviceMappings)
        ensures
            m.mappings@ == self@,
    {
        self.mappings.clone()
    }

    /// Find FSCT device by Roon output ID.
    pub fn find_fsct_by_roon(&self, roon_output_id: &str) -> (r: Option<FsctDevice>)
        ensures
            r == spec_find_fsct_by_roon(self@, roon_output_id@),
    {
        match self.mappings.find_fsct_by_roon(roon_output_id) {
            Some(d) => Some(d.clone()),
            None => None,
        }
    }

    /// Find Roon output by FSCT device ID.
    pub fn find_roon_by_fsct(&self, fsct_device_id: &str) -> (r: Option<RoonOutput>)
        ensures
            r == spec_find_roon_by_fsct(self@, fsct_device_id@),
    {
        match self.mappings.find_roon_by_fsct(fsct_device_id) {
            Some(o) => Some(o.clone()),
            None => None,
        }
    }

    /// Add or update a mapping.
    pub fn upsert(&mut self, mapping: DeviceMapping)
        ensures
            final(self)@ == spec_upsert(old(self)@, mapping),
    {
        self.mappings.upsert(mapping);
    }

    /// Remove mapping by Roon output ID.
    pub fn remove_by_roon(&mut self, roon_output_id: &str) -> (removed: bool)
        ensures
            final(self)@ == spec_remove_by_roon(old(self)@, roon_output_id@),
            removed == exists|j: int|
                0 <= j < old(self)@.len() && #[trigger] roon_key(old(self)@[j]) == roon_output_id@,
    {
        self.mappings.remove_by_roon(roon_output_id)
    }

    /// Update Roon output availability status.
    pub fn update_roon_status(&mut self, roon_output_id: &str, is_available: bool)
        ensures
            final(self)@ == spec_set_first_active(old(self)@, for_roon(roon_output_id@), is_available),
    {
        self.mappings.update_roon_status(roon_output_id, is_available);
    }

    /// Update FSCT device availability status.
    pub fn update_fsct_status(&mut self, fsct_device_id: &str, is_available: bool)
        ensures
            final(self)@ == spec_set_first_active(old(self)@, for_fsct(fsct_device_id@), is_available),
    {
        self.mappings.update_fsct_status(fsct_device_id, is_available);
    }

    /// Get all mappings as a vector.
    pub fn list_all(&self) -> (v: Vec<DeviceMapping>)
        ensures
            v@ == self@,
    {
        self.mappings.clone().mappings
    }
}

impl Default for MappingService {
    fn default() -> (s: Self)
        ensures
            s@ == Seq::<DeviceMapping>::empty(),
    {
        Self::new()
    }
}

} // verus!
