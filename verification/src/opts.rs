//! The options that steer the execution of a makefile.

use vstd::prelude::*;

verus! {

/// The options of one run.
#[derive(Debug)]
pub struct Opts {
    /// Take every target as out of date.
    pub always_make: bool,
    /// Go on after a recipe line that failed.
    pub ignore_errors: bool,
    /// Print the recipe lines instead of running them.
    pub just_print: bool,
    /// The files that are taken as very old.
    pub old_file: Vec<String>,
    /// The files that are taken as very new.
    pub new_file: Vec<String>,
}

/// What the options are to the contracts.
pub struct OptsView {
    pub always_make: bool,
    pub ignore_errors: bool,
    pub just_print: bool,
    pub old_file: Seq<Seq<char>>,
    pub new_file: Seq<Seq<char>>,
}

impl View for Opts {
    type V = OptsView;

    open spec fn view(&self) -> OptsView {
        OptsView {
            always_make: self.always_make,
            ignore_errors: self.ignore_errors,
            just_print: self.just_print,
            old_file: crate::text::texts(self.old_file@),
            new_file: crate::text::texts(self.new_file@),
        }
    }
}

impl Default for Opts {
    fn default() -> (out: Self)
        ensures
            !out.always_make,
            !out.ignore_errors,
            !out.just_print,
            out.old_file@.len() == 0,
            out.new_file@.len() == 0,
    {
        Opts {
            always_make: false,
            ignore_errors: false,
            just_print: false,
            old_file: Vec::new(),
            new_file: Vec::new(),
        }
    }
}

/// Whether `name` is one of `list`.
pub fn listed(list: &Vec<String>, name: &str) -> (out: bool)
    ensures
        out == crate::text::texts(list@).contains(name@),
{
    let mut i: usize = 0;
    while i < list.len()
        invariant
            i <= list.len(),
            forall|k: int| 0 <= k < i ==> crate::text::texts(list@)[k] != name@,
        decreases list.len() - i,
    {
        assert(crate::text::texts(list@)[i as int] == list@[i as int]@);
        if crate::text::same_str(list[i].as_str(), name) {
            return true;
        }
        i += 1;
    }
    assert(!crate::text::texts(list@).contains(name@));
    false
}

} // verus!
