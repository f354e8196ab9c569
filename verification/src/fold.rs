//! Case folding: the form under which texts are compared when case is to be
//! ignored.

use vstd::prelude::*;
use vstd::string::*;

verus! {

/// The lower-case form of a text: what `str::to_lowercase` returns for it.
pub uninterp spec fn lowercase_of(text: Seq<char>) -> Seq<char>;

/// The form under which a text is compared. Where case is respected it is
/// the text itself. Where case is ignored it is the lower-case form of the
/// text; the empty text is its own folded form.
pub open spec fn folded(text: Seq<char>, ignore_case: bool) -> Seq<char> {
    if ignore_case && text.len() > 0 {
        lowercase_of(text)
    } else {
        text
    }
}

/// Two texts are the same up to case when their folded forms are equal.
pub open spec fn same_ignoring_case(one: Seq<char>, other: Seq<char>) -> bool {
    folded(one, true) == folded(other, true)
}

/// Calls `str::to_lowercase` of the standard library. Nothing is proved of
/// that call: the contract only gives its result the name `lowercase_of`,
/// which says that equal texts have equal lower-case forms.
#[verifier::external_body]
pub(crate) fn to_lowercase(text: &str) -> (lowered: String)
    ensures
        lowered@ == lowercase_of(text@),
{
    text.to_lowercase()
}

/// Gives the form under which `text` is compared.
pub fn fold_text(text: &str, ignore_case: bool) -> (form: String)
    ensures
        form@ == folded(text@, ignore_case),
{
    if ignore_case && !text.is_empty() {
        to_lowercase(text)
    } else {
        text.to_owned()
    }
}

} // verus!
