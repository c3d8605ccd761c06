//! The class attribute of a rendered link.

use vstd::prelude::*;

verus! {

/// The class that every link carries.
pub open spec fn base_class() -> Seq<char> {
    "nav-link"@
}

/// The class that marks the link whose target matches the current path.
pub open spec fn active_class() -> Seq<char> {
    "active"@
}

/// The class attribute of a link: the base class, followed by a space and
/// the active class when the link is active.
pub open spec fn class_list(is_active: bool) -> Seq<char> {
    if is_active {
        base_class() + seq![' '] + active_class()
    } else {
        base_class()
    }
}

/// Returns the class attribute of a link: `nav-link`, or `nav-link active`
/// for an active link.
pub fn build_class(is_active: bool) -> (class: &'static str)
    ensures
        class@ == class_list(is_active),
{
    proof {
        reveal_strlit("nav-link active");
        reveal_strlit("nav-link");
        reveal_strlit("active");
        assert("nav-link active"@ =~= "nav-link"@ + seq![' '] + "active"@);
    }
    if is_active {
        "nav-link active"
    } else {
        "nav-link"
    }
}

} // verus!
