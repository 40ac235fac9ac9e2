//! How the shard compares names.
//!
//! An account name and a character name are one name however the player
//! typed them: every lookup folds both sides the same way before comparing.
//! The fold is the standard library's full Unicode lowercase mapping, which is
//! far too long to restate here, so it is named ([`lowercase_of`]) and every
//! contract that compares names is stated over that name. A name as typed is
//! first trimmed of white space ([`trimmed_of`]), which is stated in full.
use vstd::prelude::*;
use vstd::string::*;

verus! {

/// What `str::to_lowercase` returns for a string, as characters.
pub uninterp spec fn lowercase_of(s: Seq<char>) -> Seq<char>;

/// A character with the Unicode `White_Space` property, the set that
/// `str::trim` strips.
pub open spec fn is_white(c: char) -> bool {
    let u = c as u32;
    ||| 0x09 <= u <= 0x0D
    ||| u == 0x20
    ||| u == 0x85
    ||| u == 0xA0
    ||| u == 0x1680
    ||| 0x2000 <= u <= 0x200A
    ||| u == 0x2028
    ||| u == 0x2029
    ||| u == 0x202F
    ||| u == 0x205F
    ||| u == 0x3000
}

/// The characters without their leading white space.
pub open spec fn without_leading(s: Seq<char>) -> Seq<char>
    decreases s.len(),
{
    if s.len() > 0 && is_white(s[0]) {
        without_leading(s.drop_first())
    } else {
        s
    }
}

/// The characters without their trailing white space.
pub open spec fn without_trailing(s: Seq<char>) -> Seq<char>
    decreases s.len(),
{
    if s.len() > 0 && is_white(s.last()) {
        without_trailing(s.drop_last())
    } else {
        s
    }
}

/// A name as typed, with the white space around it taken off.
pub open spec fn trimmed_of(s: Seq<char>) -> Seq<char> {
    without_trailing(without_leading(s))
}

proof fn lemma_leading_all_white(s: Seq<char>)
    ensures
        (without_leading(s).len() == 0) == (forall|i: int| 0 <= i < s.len() ==> is_white(#[trigger] s[i])),
    decreases s.len(),
{
    if s.len() > 0 && is_white(s[0]) {
        lemma_leading_all_white(s.drop_first());
        if forall|i: int| 0 <= i < s.drop_first().len() ==> is_white(#[trigger] s.drop_first()[i]) {
            assert forall|i: int| 0 <= i < s.len() implies is_white(#[trigger] s[i]) by {
                if i > 0 {
                    assert(s[i] == s.drop_first()[i - 1]);
                }
            }
        } else {
            let j = choose|j: int| 0 <= j < s.drop_first().len() && !is_white(#[trigger] s.drop_first()[j]);
            assert(s[j + 1] == s.drop_first()[j]);
        }
    } else if s.len() > 0 {
        assert(!is_white(s[0]));
    }
}

proof fn lemma_trailing_keeps_a_dark_char(s: Seq<char>, k: int)
    requires
        0 <= k < s.len(),
        !is_white(s[k]),
    ensures
        without_trailing(s).len() > 0,
    decreases s.len(),
{
    if is_white(s.last()) {
        assert(k < s.len() - 1);
        assert(s.drop_last()[k] == s[k]);
        lemma_trailing_keeps_a_dark_char(s.drop_last(), k);
    }
}

/// A name trims to nothing exactly when every character of it is white space.
pub proof fn lemma_trims_to_nothing(s: Seq<char>)
    ensures
        (trimmed_of(s).len() == 0) == (forall|i: int| 0 <= i < s.len() ==> is_white(#[trigger] s[i])),
{
    lemma_leading_all_white(s);
    let lead = without_leading(s);
    if lead.len() > 0 {
        lemma_leading_starts_dark(s);
        lemma_trailing_keeps_a_dark_char(lead, 0);
    }
}

proof fn lemma_leading_starts_dark(s: Seq<char>)
    ensures
        without_leading(s).len() > 0 ==> !is_white(without_leading(s)[0]),
    decreases s.len(),
{
    if s.len() > 0 && is_white(s[0]) {
        lemma_leading_starts_dark(s.drop_first());
    }
}

/// Two names that name the same thing.
pub open spec fn same_name(a: Seq<char>, b: Seq<char>) -> bool {
    lowercase_of(a) == lowercase_of(b)
}

/// `str::to_lowercase`: the contract claims only that its result is the named
/// fold of its argument, which is a function of that argument alone.
#[verifier::external_body]
pub(crate) fn to_lowercase(s: &str) -> (folded: String)
    ensures
        folded@ == lowercase_of(s@),
{
    s.to_lowercase()
}

/// `str::trim`: the contract claims what its documentation states, that the
/// result is the argument without its leading and trailing characters of the
/// Unicode `White_Space` property.
#[verifier::external_body]
pub(crate) fn trim(s: &str) -> (inner: &str)
    ensures
        inner@ == trimmed_of(s@),
{
    s.trim()
}

/// Whether two names name the same thing, folded the way every name in the
/// shard is.
pub fn names_match(a: &str, b: &str) -> (same: bool)
    ensures
        same == same_name(a@, b@),
{
    let left = to_lowercase(a);
    let right = to_lowercase(b);
    left == right
}

/// A character folded by ASCII case only, as a code point.
pub open spec fn ascii_folded(c: char) -> u32 {
    if 'A' <= c && c <= 'Z' {
        ((c as u32) + 32) as u32
    } else {
        c as u32
    }
}

/// `str::eq_ignore_ascii_case`: the same characters, with ASCII letters
/// compared without regard to case and everything else compared exactly.
pub open spec fn ascii_case_equal(a: Seq<char>, b: Seq<char>) -> bool {
    &&& a.len() == b.len()
    &&& forall|i: int| 0 <= i < a.len() ==> #[trigger] ascii_folded(a[i]) == ascii_folded(b[i])
}

fn fold_ascii(c: char) -> (folded: u32)
    ensures
        folded == ascii_folded(c),
{
    let code = c as u32;
    if 'A' <= c && c <= 'Z' {
        code + 32
    } else {
        code
    }
}

/// Whether two strings are equal when ASCII letters are compared without
/// regard to case.
pub fn eq_ignore_ascii_case(a: &str, b: &str) -> (same: bool)
    ensures
        same == ascii_case_equal(a@, b@),
{
    let length = a.unicode_len();
    if length != b.unicode_len() {
        return false;
    }
    let mut i: usize = 0;
    while i < length
        invariant
            length == a@.len(),
            length == b@.len(),
            i <= length,
            forall|j: int| 0 <= j < i ==> #[trigger] ascii_folded(a@[j]) == ascii_folded(b@[j]),
        decreases length - i,
    {
        if fold_ascii(a.get_char(i)) != fold_ascii(b.get_char(i)) {
            assert(!(ascii_folded(a@[i as int]) == ascii_folded(b@[i as int])));
            return false;
        }
        i = i + 1;
    }
    true
}

} // verus!
