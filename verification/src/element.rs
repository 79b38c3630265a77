//! What the library concludes about a focused element from the attributes it reports.
use vstd::prelude::*;

use crate::text::same_text;

verus! {

/// The roles of elements that hold editable text.
pub open spec fn text_roles() -> Seq<Seq<char>> {
    seq!["AXTextField"@, "AXTextArea"@, "AXComboBox"@, "AXSearchField"@, "AXWebArea"@]
}

/// The roles of elements that hold editable text.
pub fn text_roles_list() -> (r: [&'static str; 5])
    ensures
        r@.len() == 5,
        forall|i: int| 0 <= i < 5 ==> #[trigger] r@[i]@ == text_roles()[i],
{
    ["AXTextField", "AXTextArea", "AXComboBox", "AXSearchField", "AXWebArea"]
}

/// Whether an element with role `role` and subrole `subrole`, which does or does not report a
/// selection, is one the user types into: a text role, a content-editable subrole, or any element
/// with a selection.
pub open spec fn editable_element(
    role: Seq<char>,
    subrole: Option<Seq<char>>,
    has_selection: bool,
) -> bool {
    text_roles().contains(role) || subrole == Some("AXContentEditable"@) || has_selection
}

/// Whether an element with role `role` and subrole `subrole`, which does or does not report a
/// selection, is one the user types into.
pub fn is_editable(role: &str, subrole: Option<&str>, has_selection: bool) -> (r: bool)
    ensures
        r == editable_element(
            role@,
            match subrole {
                Some(s) => Some(s@),
                None => None,
            },
            has_selection,
        ),
{
    let roles = text_roles_list();
    let mut i: usize = 0;
    let mut text_role = false;
    while i < 5
        invariant
            roles@.len() == 5,
            forall|k: int| 0 <= k < 5 ==> #[trigger] roles@[k]@ == text_roles()[k],
            0 <= i <= 5,
            text_role == (exists|k: int| 0 <= k < i && text_roles()[k] == role@),
        decreases 5 - i,
    {
        if same_text(role, roles[i]) {
            text_role = true;
        }
        i = i + 1;
    }
    proof {
        if text_roles().contains(role@) {
            let k = choose|k: int| 0 <= k < text_roles().len() && text_roles()[k] == role@;
            assert(0 <= k < 5 && text_roles()[k] == role@);
        }
        if text_role {
            let k = choose|k: int| 0 <= k < 5 && text_roles()[k] == role@;
            assert(text_roles().contains(role@));
        }
    }
    let content_editable = match subrole {
        Some(subrole) => same_text(subrole, "AXContentEditable"),
        None => false,
    };
    text_role || content_editable || has_selection
}

/// An element is one the user types into exactly when its role is a text field, a text area, a
/// combo box, a search field or a web area (whatever its subrole and selection), or its subrole is
/// `AXContentEditable`, or it reports a selection.
pub proof fn lemma_editable_elements(
    role: Seq<char>,
    subrole: Option<Seq<char>>,
    has_selection: bool,
)
    ensures
        editable_element(role, subrole, has_selection) <==> (role == "AXTextField"@ || role
            == "AXTextArea"@ || role == "AXComboBox"@ || role == "AXSearchField"@ || role
            == "AXWebArea"@ || subrole == Some("AXContentEditable"@) || has_selection),
{
    let named = role == "AXTextField"@ || role == "AXTextArea"@ || role == "AXComboBox"@ || role
        == "AXSearchField"@ || role == "AXWebArea"@;
    if named {
        if role == "AXTextField"@ {
            assert(text_roles()[0] == role);
        } else if role == "AXTextArea"@ {
            assert(text_roles()[1] == role);
        } else if role == "AXComboBox"@ {
            assert(text_roles()[2] == role);
        } else if role == "AXSearchField"@ {
            assert(text_roles()[3] == role);
        } else {
            assert(text_roles()[4] == role);
        }
        assert(text_roles().contains(role));
    }
    if text_roles().contains(role) {
        let k = choose|k: int| 0 <= k < text_roles().len() && text_roles()[k] == role;
        assert(0 <= k < 5);
        assert(named);
    }
}

/// The selection that an element reports as the range `(location, length)`: none at a negative
/// location, and a negative length read as an empty selection.
pub fn selection_from_range(location: isize, length: isize) -> (r: Option<(usize, usize)>)
    ensures
        location < 0 ==> r is None,
        location >= 0 ==> r == Some(
            (location as usize, if length < 0 {
                0usize
            } else {
                length as usize
            }),
        ),
{
    if location < 0 {
        return None;
    }
    let length = if length < 0 {
        0
    } else {
        length as usize
    };
    Some((location as usize, length))
}

} // verus!
