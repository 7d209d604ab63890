//! Offsets of engine objects from the program's base.
use vstd::prelude::*;

verus! {

#[derive(Clone, Copy, Debug)]
pub struct RvaBundle {
    pub csemevd_repository_vmt: u32,
    pub csemevd_res_cap_vmt: u32,
    pub tpf_repository_vmt: u32,
    pub tpf_res_cap_vmt: u32,
    pub tpf_file_cap_vmt: u32,
}

/// Bundles the offsets of one game version.
pub fn get(
    csemevd_repository_vmt: u32,
    csemevd_res_cap_vmt: u32,
    tpf_repository_vmt: u32,
    tpf_res_cap_vmt: u32,
    tpf_file_cap_vmt: u32,
) -> (r: RvaBundle)
    ensures
        r.csemevd_repository_vmt == csemevd_repository_vmt,
        r.csemevd_res_cap_vmt == csemevd_res_cap_vmt,
        r.tpf_repository_vmt == tpf_repository_vmt,
        r.tpf_res_cap_vmt == tpf_res_cap_vmt,
        r.tpf_file_cap_vmt == tpf_file_cap_vmt,
{
    RvaBundle {
        csemevd_repository_vmt,
        csemevd_res_cap_vmt,
        tpf_repository_vmt,
        tpf_res_cap_vmt,
        tpf_file_cap_vmt,
    }
}

} // verus!
