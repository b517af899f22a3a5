//! Used memory from the outputs of `sysctl -n hw.pagesize`, `sysctl -n
//! hw.memsize` and `vm_stat`.
use vstd::prelude::*;
use vstd::string::*;
use crate::parsers::{compute_memory, result_view, spec_compute_memory, spec_parse_vm_stat, parse_vm_stat, MemInfo};
use crate::text::{chars_of, parse_u64, parse_u64_chars, trim, trim_chars};

verus! {

/// What `parse_sysctl_uint` gives: the trimmed output read as a `u64`, or
/// `parse NAME: REASON`.
pub open spec fn spec_sysctl_uint(name: Seq<char>, output: Seq<char>) -> Result<u64, Seq<char>> {
    match parse_u64(trim(output)) {
        Ok(v) => Ok(v),
        Err(k) => Err("parse "@ + name + ": "@ + k.spec_message()),
    }
}

/// Reads the output of `sysctl -n NAME` as an unsigned number.
pub fn parse_sysctl_uint(name: &str, output: &str) -> (r: Result<u64, String>)
    ensures
        result_view(r) == spec_sysctl_uint(name@, output@),
{
    let cs = chars_of(output);
    let t = trim_chars(cs.as_slice());
    match parse_u64_chars(t.as_slice()) {
        Ok(v) => Ok(v),
        Err(k) => {
            let mut e = String::from_str("parse ");
            e.append(name);
            e.append(": ");
            e.append(k.message());
            Err(e)
        },
    }
}

/// What `get` gives for the page size, the memory size and the `vm_stat`
/// output.
pub open spec fn spec_memory(psize: u64, total_bytes: u64, vm_stat_output: Seq<char>) -> Result<MemInfo, Seq<char>> {
    if psize == 0 {
        Err("page size is zero"@)
    } else {
        match spec_parse_vm_stat(vm_stat_output) {
            None => Err("vm_stat parse failed"@),
            Some(vm) => spec_compute_memory(total_bytes / psize, psize, vm),
        }
    }
}

/// Used memory from `hw.pagesize`, `hw.memsize` and the `vm_stat` output, in
/// the decimal units Activity Monitor shows. The page count is the memory
/// size divided by the page size; a zero page size is an error.
pub fn get(psize: u64, total_bytes: u64, vm_stat_output: &str) -> (r: Result<MemInfo, String>)
    ensures
        result_view(r) == spec_memory(psize, total_bytes, vm_stat_output@),
        psize == 0 ==> r is Err,
{
    if psize == 0 {
        return Err(String::from_str("page size is zero"));
    }
    let total_pages = total_bytes / psize;
    let vm = match parse_vm_stat(vm_stat_output) {
        Ok(vm) => vm,
        Err(e) => {
            return Err(e);
        },
    };
    compute_memory(total_pages, psize, vm)
}

} // verus!
