//! The four-way highlight classification, decided from the two membership
//! lists and the delegate's executive authority, in a fixed priority
//! order.

use vstd::prelude::*;

verus! {

/// The mutually exclusive highlight outcomes, in priority order.
#[derive(Clone, Copy, Debug, PartialEq, Eq, Structural)]
pub enum Category {
    /// Governorless and passwordless: open to anyone.
    FullyOpen,
    /// Governed, but the delegate holds executive authority and the
    /// region is passwordless.
    DelegateRisk,
    /// Password-protected: cannot be freely entered, whatever its
    /// governance.
    Locked,
    /// No highlight.
    Neutral,
}

/// Whether a name occurs in a membership list.
pub open spec fn name_in(list: Seq<String>, name: Seq<char>) -> bool {
    exists|i: int| 0 <= i < list.len() && (#[trigger] list[i])@ == name
}

/// The first matching rule wins: both lists, then executive-delegate
/// risk, then password lock, then nothing.
pub open spec fn category_spec(gov: bool, exec_auth: bool, pwd: bool) -> Category {
    if gov && pwd {
        Category::FullyOpen
    } else if !gov && exec_auth && pwd {
        Category::DelegateRisk
    } else if !pwd {
        Category::Locked
    } else {
        Category::Neutral
    }
}

/// A region's category, from its name's membership in the two lists and
/// its delegate's authority.
pub open spec fn region_category(
    name: Seq<char>,
    exec_auth: bool,
    governorless: Seq<String>,
    passwordless: Seq<String>,
) -> Category {
    category_spec(name_in(governorless, name), exec_auth, name_in(passwordless, name))
}

/// Linear membership test against a list of names.
pub fn contains_name(list: &Vec<String>, name: &String) -> (r: bool)
    ensures
        r == name_in(list@, name@),
{
    let mut i: usize = 0;
    while i < list.len()
        invariant
            0 <= i <= list@.len(),
            forall|j: int| 0 <= j < i ==> (#[trigger] list@[j])@ != name@,
        decreases list@.len() - i,
    {
        if crate::text::str_eq(list[i].as_str(), name.as_str()) {
            return true;
        }
        i = i + 1;
    }
    false
}

/// Decide a region's highlight category.
pub fn classify(
    name: &String,
    delegate_exec: bool,
    governorless: &Vec<String>,
    passwordless: &Vec<String>,
) -> (c: Category)
    ensures
        c == region_category(name@, delegate_exec, governorless@, passwordless@),
{
    let is_gov = contains_name(governorless, name);
    let is_pwd = contains_name(passwordless, name);
    if is_gov && is_pwd {
        Category::FullyOpen
    } else if !is_gov && delegate_exec && is_pwd {
        Category::DelegateRisk
    } else if !is_pwd {
        Category::Locked
    } else {
        Category::Neutral
    }
}

/// Classification is a pure function of the region set and the two
/// membership lists: two runs over the same inputs assign the same
/// category.
pub proof fn lemma_classification_deterministic(
    name: Seq<char>,
    exec_auth: bool,
    governorless: Seq<String>,
    passwordless: Seq<String>,
    c1: Category,
    c2: Category,
)
    requires
        c1 == region_category(name, exec_auth, governorless, passwordless),
        c2 == region_category(name, exec_auth, governorless, passwordless),
    ensures
        c1 == c2,
{
}

} // verus!
