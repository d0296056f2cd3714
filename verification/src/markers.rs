//! The textual marker format embedded in rendered HTML.
//!
//! A comment marker has the form `hk=<key>|<role>`: the reserved prefix, the
//! key's textual form up to the first separator, then a role tag naming the
//! structural position (for example a component boundary's start or end).
//! The client recovers the key by stripping the prefix and cutting at the
//! first separator.

use vstd::prelude::*;

verus! {

use vstd::string::StrSliceExecFns;
use vstd::string::StringExecFns;

/// The reserved prefix that opens every hydration comment marker.
pub open spec fn marker_prefix() -> Seq<char> {
    seq!['h', 'k', '=']
}

/// The full text of a comment marker for a key rendered as `key` with role
/// tag `role`.
pub open spec fn marker_text(key: Seq<char>, role: Seq<char>) -> Seq<char> {
    marker_prefix() + key + seq!['|'] + role
}

/// The position of the first `'|'` in `t` at or after `i`, or `t.len()` if
/// there is none.
pub open spec fn first_bar_from(t: Seq<char>, i: int) -> int
    decreases t.len() - i,
{
    if i < 0 || i >= t.len() {
        t.len() as int
    } else if t[i] == '|' {
        i
    } else {
        first_bar_from(t, i + 1)
    }
}

/// The key recovered from a comment's text: defined only for text that opens
/// with the reserved prefix, and then everything up to the first separator.
pub open spec fn spec_parse_marker_key(t: Seq<char>) -> Option<Seq<char>> {
    if t.len() >= 3 && t[0] == 'h' && t[1] == 'k' && t[2] == '=' {
        Some(t.subrange(3, first_bar_from(t, 3)))
    } else {
        None
    }
}

proof fn lemma_first_bar_from_is(t: Seq<char>, i: int, k: int)
    requires
        0 <= i <= k <= t.len(),
        forall|j: int| i <= j < k ==> t[j] != '|',
        k < t.len() ==> t[k] == '|',
    ensures
        first_bar_from(t, i) == k,
    decreases k - i,
{
    if i < k {
        lemma_first_bar_from_is(t, i + 1, k);
    }
}

/// Builds the comment marker text for a rendered key and a role tag.
pub fn comment_marker(key: &str, role: &str) -> (r: String)
    ensures
        r@ == marker_text(key@, role@),
{
    proof {
        reveal_strlit("hk=");
        reveal_strlit("|");
    }
    let mut s = String::new();
    s.append("hk=");
    s.append(key);
    s.append("|");
    s.append(role);
    proof {
        assert(s@ =~= marker_text(key@, role@));
    }
    s
}

/// Recovers the key from a comment's text, if the text is a hydration
/// marker; any other comment yields nothing, never an error.
pub fn parse_marker_key(text: &str) -> (r: Option<String>)
    ensures
        r is Some <==> spec_parse_marker_key(text@) is Some,
        r is Some ==> r.unwrap()@ == spec_parse_marker_key(text@).unwrap(),
{
    let n = text.unicode_len();
    if n < 3 {
        return None;
    }
    if text.get_char(0) != 'h' || text.get_char(1) != 'k' || text.get_char(2) != '=' {
        return None;
    }
    let mut i: usize = 3;
    while i < n && text.get_char(i) != '|'
        invariant
            3 <= i <= n,
            n == text@.len(),
            forall|j: int| 3 <= j < i ==> text@[j] != '|',
        decreases n - i,
    {
        i = i + 1;
    }
    proof {
        lemma_first_bar_from_is(text@, 3, i as int);
    }
    let key = text.substring_char(3, i);
    Some(key.to_owned())
}

/// The reserved prefix that opens every view-boundary comment, a debug-only
/// marker that tooling uses to highlight component bounds.
pub open spec fn view_marker_prefix() -> Seq<char> {
    seq!['l', 'e', 'p', 't', 'o', 's', '-', 'v', 'i', 'e', 'w', '|']
}

/// The tag recovered from a view-boundary comment: everything after the
/// reserved prefix (the producing component's source-position tag together
/// with its open/close word).
pub open spec fn spec_parse_view_marker(t: Seq<char>) -> Option<Seq<char>> {
    if t.len() >= 12 && t.subrange(0, 12) == view_marker_prefix() {
        Some(t.skip(12))
    } else {
        None
    }
}

/// Recovers the tag from a view-boundary comment's text, if it is one.
pub fn parse_view_marker(text: &str) -> (r: Option<String>)
    ensures
        r is Some <==> spec_parse_view_marker(text@) is Some,
        r is Some ==> r.unwrap()@ == spec_parse_view_marker(text@).unwrap(),
{
    proof {
        reveal_strlit("leptos-view|");
        assert("leptos-view|"@ =~= view_marker_prefix());
    }
    let n = text.unicode_len();
    if n < 12 {
        return None;
    }
    let head = text.substring_char(0, 12);
    if !crate::index::str_eq(head, "leptos-view|") {
        return None;
    }
    let tag = text.substring_char(12, n);
    proof {
        assert(tag@ =~= text@.skip(12));
    }
    Some(tag.to_owned())
}

/// Marker round-trip at the level of one marker: parsing the text emitted
/// for a key recovers exactly that key, provided the key's textual form does
/// not itself contain the separator (rendered keys never do: they hold only
/// an underscore, digits and a mode suffix).
pub proof fn lemma_marker_round_trip(key: Seq<char>, role: Seq<char>)
    requires
        !key.contains('|'),
    ensures
        spec_parse_marker_key(marker_text(key, role)) == Some(key),
{
    let t = marker_text(key, role);
    assert(t.len() >= 3);
    assert(t[0] == 'h' && t[1] == 'k' && t[2] == '=');
    assert forall|j: int| 3 <= j < 3 + key.len() as int implies t[j] != '|' by {
        assert(t[j] == key[j - 3]);
    }
    assert(t[3 + key.len() as int] == '|');
    lemma_first_bar_from_is(t, 3, 3 + key.len() as int);
    assert(t.subrange(3, 3 + key.len() as int) =~= key);
}

/// A rendered key's text never contains the separator, so it survives the
/// round trip through a comment marker.
pub proof fn lemma_key_text_has_no_bar(id: nat, closing: bool, debug: bool)
    ensures
        !crate::key::key_text(id, closing, debug).contains('|'),
{
    lemma_dec_digits_are_digits(id);
    let t = crate::key::key_text(id, closing, debug);
    assert forall|j: int| 0 <= j < t.len() implies t[j] != '|' by {
        if 1 <= j < 1 + crate::key::dec_digits(id).len() {
            assert(t[j] == crate::key::dec_digits(id)[j - 1]);
        }
    }
    if t.contains('|') {
        let j = choose|j: int| 0 <= j < t.len() && t[j] == '|';
        assert(false);
    }
}

/// Every character of a decimal rendering is a digit.
proof fn lemma_dec_digits_are_digits(n: nat)
    ensures
        forall|j: int|
            0 <= j < crate::key::dec_digits(n).len() ==> '0' <= #[trigger] crate::key::dec_digits(
                n,
            )[j] <= '9',
    decreases n,
{
    if n < 10 {
        assert(crate::key::dec_digits(n)[0] == crate::key::digit_char(n));
    } else {
        lemma_dec_digits_are_digits(n / 10);
        let s = crate::key::dec_digits(n / 10);
        assert(crate::key::dec_digits(n) == s.push(crate::key::digit_char(n % 10)));
        assert forall|j: int|
            0 <= j < crate::key::dec_digits(n).len() implies '0' <= #[trigger] crate::key::dec_digits(
            n,
        )[j] <= '9' by {
            if j < s.len() {
                assert(crate::key::dec_digits(n)[j] == s[j]);
            } else {
                assert(crate::key::dec_digits(n)[j] == crate::key::digit_char(n % 10));
            }
        }
    }
}

} // verus!
