//! Identifiers: the characters they may not hold, how those are stripped,
//! and what makes a name valid.

use crate::text::{all_whitespace, chars_of, is_whitespace, is_whitespace_char, string_of};
use vstd::prelude::*;

verus! {

/// The longest valid name, in characters.
pub const MAX_NAME_LEN: usize = 256;

/// The characters that no identifier may hold.
pub open spec fn is_forbidden(c: char) -> bool {
    ||| c == '/'
    ||| c == '('
    ||| c == ')'
    ||| c == '"'
    ||| c == '<'
    ||| c == '>'
    ||| c == '\\'
    ||| c == '{'
    ||| c == '}'
}

/// Decides [`is_forbidden`].
pub fn is_forbidden_char(c: char) -> (b: bool)
    ensures
        b == is_forbidden(c),
{
    c == '/' || c == '(' || c == ')' || c == '"' || c == '<' || c == '>' || c == '\\' || c == '{'
        || c == '}'
}

/// The predicate that keeps a character when an identifier is sanitized.
pub open spec fn allowed() -> spec_fn(char) -> bool {
    |c: char| !is_forbidden(c)
}

/// `s` without its forbidden characters; the others keep their order.
pub open spec fn sanitized(s: Seq<char>) -> Seq<char> {
    s.filter(allowed())
}

/// Whether `s` holds no forbidden character.
pub open spec fn is_clean(s: Seq<char>) -> bool {
    forall|i: int| 0 <= i < s.len() ==> !is_forbidden(#[trigger] s[i])
}

/// A valid name is between 1 and [`MAX_NAME_LEN`] characters long, is not
/// made of whitespace alone, and holds no forbidden character.
pub open spec fn valid_name(s: Seq<char>) -> bool {
    &&& 0 < s.len() <= MAX_NAME_LEN
    &&& !all_whitespace(s)
    &&& is_clean(s)
}

/// Sanitizing leaves no forbidden character behind.
pub proof fn lemma_sanitized_is_clean(s: Seq<char>)
    ensures
        is_clean(sanitized(s)),
{
    let t = sanitized(s);
    assert forall|i: int| 0 <= i < t.len() implies !is_forbidden(#[trigger] t[i]) by {
        s.lemma_filter_pred(allowed(), i);
    }
}

/// A sequence without forbidden characters is its own sanitized form.
pub proof fn lemma_clean_is_fixed(s: Seq<char>)
    requires
        is_clean(s),
    ensures
        sanitized(s) == s,
    decreases s.len(),
{
    reveal(Seq::filter);
    if s.len() > 0 {
        assert(is_clean(s.drop_last())) by {
            assert forall|i: int| 0 <= i < s.drop_last().len() implies !is_forbidden(
                #[trigger] s.drop_last()[i],
            ) by {
                assert(s.drop_last()[i] == s[i]);
            }
        }
        lemma_clean_is_fixed(s.drop_last());
        assert(!is_forbidden(s[s.len() - 1]));
        assert(s.drop_last().push(s.last()) == s);
    }
}

/// Sanitizing is idempotent: a second pass changes nothing.
pub proof fn lemma_sanitize_idempotent(s: Seq<char>)
    ensures
        sanitized(sanitized(s)) == sanitized(s),
{
    lemma_sanitized_is_clean(s);
    lemma_clean_is_fixed(sanitized(s));
}

/// Removes the forbidden characters from `input`.
pub fn make_string_valid(input: &str) -> (out: String)
    ensures
        out@ == sanitized(input@),
{
    let chars = chars_of(input);
    let mut kept: Vec<char> = Vec::new();
    let mut i: usize = 0;
    proof {
        reveal(Seq::filter);
    }
    while i < chars.len()
        invariant
            i <= chars.len(),
            kept@ == sanitized(chars@.take(i as int)),
        decreases chars.len() - i,
    {
        let c = chars[i];
        proof {
            assert(chars@.take(i + 1) == chars@.take(i as int).push(c));
            chars@.take(i as int).lemma_filter_push(c, allowed());
        }
        if !is_forbidden_char(c) {
            kept.push(c);
        }
        i += 1;
    }
    assert(chars@.take(i as int) == chars@);
    string_of(&kept)
}

/// Decides [`valid_name`].
pub fn is_valid_name(text: &str) -> (b: bool)
    ensures
        b == valid_name(text@),
{
    let chars = chars_of(text);
    if chars.len() == 0 || chars.len() > MAX_NAME_LEN {
        return false;
    }
    let mut blank = true;
    let mut i: usize = 0;
    while i < chars.len()
        invariant
            i <= chars.len(),
            chars@ == text@,
            blank == all_whitespace(chars@.take(i as int)),
            is_clean(chars@.take(i as int)),
        decreases chars.len() - i,
    {
        let c = chars[i];
        if is_forbidden_char(c) {
            assert(is_forbidden(chars@[i as int]));
            return false;
        }
        let ghost before = chars@.take(i as int);
        let ghost after = chars@.take(i + 1);
        assert(after == before.push(c));
        assert forall|j: int| 0 <= j < before.len() implies before[j] == after[j] by {}
        if !is_whitespace_char(c) {
            assert(!is_whitespace(after[i as int]));
            blank = false;
        } else {
            assert(all_whitespace(before) ==> all_whitespace(after));
            assert(!all_whitespace(before) ==> !all_whitespace(after)) by {
                if !all_whitespace(before) {
                    let j = choose|j: int|
                        0 <= j < before.len() && !is_whitespace(#[trigger] before[j]);
                    assert(!is_whitespace(after[j]));
                }
            }
        }
        i += 1;
    }
    assert(chars@.take(i as int) == chars@);
    !blank
}

/// A name that has been checked: its characters satisfy [`valid_name`].
#[derive(Debug)]
pub struct ValidName {
    text: String,
}

impl View for ValidName {
    type V = Seq<char>;

    closed spec fn view(&self) -> Seq<char> {
        self.text@
    }
}

impl ValidName {
    #[verifier::type_invariant]
    spec fn checked(self) -> bool {
        valid_name(self.text@)
    }

    /// Accepts `text` as it stands if it is a valid name, and refuses it
    /// otherwise; nothing is stripped here.
    pub fn parse(text: String) -> (r: Option<ValidName>)
        ensures
            r is Some <==> valid_name(text@),
            r matches Some(name) ==> name@ == text@,
    {
        if is_valid_name(text.as_str()) {
            Some(ValidName { text })
        } else {
            None
        }
    }

    /// The characters of the name.
    pub fn as_str(&self) -> (r: &str)
        ensures
            r@ == self@,
            valid_name(self@),
    {
        proof {
            use_type_invariant(self);
        }
        self.text.as_str()
    }

    /// The name as an owned string.
    pub fn to_string(&self) -> (r: String)
        ensures
            r@ == self@,
            valid_name(self@),
    {
        proof {
            use_type_invariant(self);
        }
        self.text.clone()
    }
}

impl Clone for ValidName {
    fn clone(&self) -> (r: Self)
        ensures
            r@ == self@,
    {
        proof {
            use_type_invariant(self);
        }
        ValidName { text: self.text.clone() }
    }
}

} // verus!
