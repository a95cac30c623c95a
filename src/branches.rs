//! Which branch a repository returns to once every window has been analysed.
use vstd::prelude::*;
use indexmap::IndexSet;
use crate::emails::chars_of;
use crate::string_set::{set_items, set_contains};

verus! {

/// The branch that the repository of `project` is restored to: a fixed branch
/// for the projects whose main line is elsewhere, else the first of `master`,
/// `main`, `trunk` and `develop` that exists, else none.
pub open spec fn branch_choice(project: Seq<char>, branches: Seq<Seq<char>>) -> Option<Seq<char>> {
    if project == "FreeMarker"@ {
        Some("2.3-gae"@)
    } else if project == "Dubbo"@ {
        Some("3.0"@)
    } else if project == "DolphinScheduler"@ {
        Some("dev"@)
    } else if branches.contains("master"@) {
        Some("master"@)
    } else if branches.contains("main"@) {
        Some("main"@)
    } else if branches.contains("trunk"@) {
        Some("trunk"@)
    } else if branches.contains("develop"@) {
        Some("develop"@)
    } else {
        None
    }
}

/// The characters of an optional text.
pub open spec fn text_of(o: Option<String>) -> Option<Seq<char>> {
    match o {
        Some(s) => Some(s@),
        None => None,
    }
}

/// Whether two texts hold the same characters.
pub fn same_text(a: &str, b: &str) -> (r: bool)
    ensures
        r == (a@ == b@),
{
    let x = chars_of(a);
    let y = chars_of(b);
    if x.len() != y.len() {
        return false;
    }
    let mut i: usize = 0;
    while i < x.len()
        invariant
            x@ == a@,
            y@ == b@,
            x.len() == y.len(),
            i <= x.len(),
            forall|j: int| 0 <= j < i ==> x@[j] == y@[j],
        decreases x.len() - i,
    {
        if x[i] != y[i] {
            assert(x@[i as int] != y@[i as int]);
            return false;
        }
        i = i + 1;
    }
    assert(x@ =~= y@);
    true
}

/// An owned copy of a text.
fn owned(s: &str) -> (r: String)
    ensures
        r@ == s@,
{
    String::from_str(s)
}

/// The branch to check out at the end of an analysis, among the local
/// branches `branches` of the repository of `project`.
pub fn default_branch(project: &str, branches: &IndexSet<String>) -> (r: Option<String>)
    ensures
        text_of(r) == branch_choice(project@, set_items(*branches)),
{
    if same_text(project, "FreeMarker") {
        Some(owned("2.3-gae"))
    } else if same_text(project, "Dubbo") {
        Some(owned("3.0"))
    } else if same_text(project, "DolphinScheduler") {
        Some(owned("dev"))
    } else if set_contains(branches, "master") {
        Some(owned("master"))
    } else if set_contains(branches, "main") {
        Some(owned("main"))
    } else if set_contains(branches, "trunk") {
        Some(owned("trunk"))
    } else if set_contains(branches, "develop") {
        Some(owned("develop"))
    } else {
        None
    }
}

} // verus!
