//! Durable saves write a sibling temporary file first and rename it over the target; this
//! module names that file. The writing and renaming are the caller's I/O.
use vstd::prelude::*;
use crate::persist::journal::{
    dir_prefix, file_name, file_name_of, last_component, lemma_sibling_name, normal_component, plain_prefix,
    replaced_file_name, with_file_name,
};

verus! {

/// The temporary file of a save: beside the target, named after it with `.ruse-tmp` appended.
pub open spec fn temp_path_of(target: Seq<char>) -> Seq<char> {
    let name = match file_name(target) {
        Some(n) => n,
        None => Seq::empty(),
    };
    replaced_file_name(target, name + ".ruse-tmp"@)
}

/// What a save's temporary file name appends to the target's name.
pub fn temp_suffix() -> (r: &'static str)
    ensures
        r@ == ".ruse-tmp"@,
{
    ".ruse-tmp"
}

/// The sibling temporary path a save writes before renaming it over `target`.
pub fn temp_path(target: &str) -> (r: String)
    ensures
        r@ == temp_path_of(target@),
{
    let mut name = match file_name_of(target) {
        Some(n) => n,
        None => String::new(),
    };
    name.append(".ruse-tmp");
    with_file_name(target, name.as_str())
}


/// Law: the temporary file of a plainly named target sits beside it, named after it with
/// `.ruse-tmp` appended.
pub proof fn law_temp_beside_target(p: Seq<char>)
    requires
        normal_component(last_component(p)),
        plain_prefix(dir_prefix(p)),
    ensures
        temp_path_of(p) == p + ".ruse-tmp"@,
{
    reveal_strlit(".ruse-tmp");
    assert(!".ruse-tmp"@.contains('/')) by {
        assert forall|i: int| 0 <= i < ".ruse-tmp"@.len() implies ".ruse-tmp"@[i] != '/' by {}
    }
    lemma_sibling_name(p, ".ruse-tmp"@);
}

} // verus!
