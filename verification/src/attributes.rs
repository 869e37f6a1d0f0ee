//! The raw facts about one finished job: a map from attribute names to
//! values, and how it is read from the scheduler's `key=value` text.

use crate::text::{chars_of, is_whitespace, is_whitespace_char, string_of_range};
use vstd::prelude::*;

verus! {

/// The map that a list of pairs stands for: a later pair replaces an
/// earlier one with the same key.
pub open spec fn map_of(entries: Seq<(String, String)>) -> Map<Seq<char>, Seq<char>>
    decreases entries.len(),
{
    if entries.len() == 0 {
        Map::empty()
    } else {
        map_of(entries.drop_last()).insert(entries.last().0@, entries.last().1@)
    }
}

/// The attributes of one job, by name.
#[derive(Debug)]
pub struct AttributeMap {
    entries: Vec<(String, String)>,
}

impl View for AttributeMap {
    type V = Map<Seq<char>, Seq<char>>;

    closed spec fn view(&self) -> Map<Seq<char>, Seq<char>> {
        map_of(self.entries@)
    }
}

impl AttributeMap {
    /// A map without attributes.
    pub fn new() -> (r: AttributeMap)
        ensures
            r@ == Map::<Seq<char>, Seq<char>>::empty(),
    {
        AttributeMap { entries: Vec::new() }
    }

    /// Sets the attribute `key` to `value`, replacing what it held.
    pub fn insert(&mut self, key: String, value: String)
        ensures
            final(self)@ == old(self)@.insert(key@, value@),
    {
        let ghost before = self.entries@;
        self.entries.push((key, value));
        assert(self.entries@.drop_last() == before);
    }

    /// The value of the attribute `key`, if the job has one.
    pub fn get(&self, key: &str) -> (r: Option<&String>)
        ensures
            r is Some <==> self@.contains_key(key@),
            r matches Some(value) ==> value@ == self@[key@],
    {
        let wanted = key.to_owned();
        let mut i: usize = self.entries.len();
        assert(self.entries@.take(i as int) == self.entries@);
        while i > 0
            invariant
                i <= self.entries.len(),
                wanted@ == key@,
                self@.contains_key(key@) <==> map_of(self.entries@.take(i as int)).contains_key(
                    key@,
                ),
                self@.contains_key(key@) ==> self@[key@] == map_of(
                    self.entries@.take(i as int),
                )[key@],
            decreases i,
        {
            i -= 1;
            assert(self.entries@.take(i + 1).drop_last() == self.entries@.take(i as int));
            if self.entries[i].0 == wanted {
                return Some(&self.entries[i].1);
            }
        }
        None
    }

    /// Whether the job has an attribute `key`.
    pub fn contains_key(&self, key: &str) -> (b: bool)
        ensures
            b == self@.contains_key(key@),
    {
        self.get(key).is_some()
    }
}

/// The three kinds of character that matter when the scheduler's text is
/// split.
#[derive(Clone, Copy, Debug)]
pub enum CharClass {
    /// Whitespace, which separates tokens.
    Blank,
    /// Anything but whitespace: what a token is made of.
    Solid,
    /// Anything but `=`: what a key or a value is made of.
    Plain,
}

/// Whether `c` belongs to `class`.
pub open spec fn in_class(class: CharClass, c: char) -> bool {
    match class {
        CharClass::Blank => is_whitespace(c),
        CharClass::Solid => !is_whitespace(c),
        CharClass::Plain => c != '=',
    }
}

/// How many characters at the start of `s` belong to `class`, up to the
/// first one that does not.
pub open spec fn run(s: Seq<char>, class: CharClass) -> nat
    decreases s.len(),
{
    if s.len() == 0 || !in_class(class, s[0]) {
        0
    } else {
        1 + run(s.drop_first(), class)
    }
}

/// The key and the value of a token: what stands before its first `=`, and
/// what stands between that and the next `=` or the token's end. A token
/// without `=` has neither.
pub open spec fn token_pair(token: Seq<char>) -> Option<(Seq<char>, Seq<char>)> {
    let split = run(token, CharClass::Plain) as int;
    if split >= token.len() {
        None
    } else {
        let rest = token.skip(split + 1);
        Some((token.take(split), rest.take(run(rest, CharClass::Plain) as int)))
    }
}

/// Reads `s` token by token on top of the attributes `known`: whitespace
/// separates tokens, each token sets one attribute, and the first token
/// without `=` ends the reading and is the error.
pub open spec fn attributes_onto(s: Seq<char>, known: Map<Seq<char>, Seq<char>>) -> Result<
    Map<Seq<char>, Seq<char>>,
    Seq<char>,
>
    decreases s.len(),
    via attributes_onto_terminates
{
    let rest = s.skip(run(s, CharClass::Blank) as int);
    let n = run(rest, CharClass::Solid) as int;
    if n == 0 {
        Ok(known)
    } else {
        match token_pair(rest.take(n)) {
            None => Err(rest.take(n)),
            Some((key, value)) => attributes_onto(rest.skip(n), known.insert(key, value)),
        }
    }
}

#[via_fn]
proof fn attributes_onto_terminates(s: Seq<char>, known: Map<Seq<char>, Seq<char>>) {
    lemma_run_fits(s, CharClass::Blank);
    lemma_run_fits(s.skip(run(s, CharClass::Blank) as int), CharClass::Solid);
}

/// A run never leaves the sequence.
pub proof fn lemma_run_fits(s: Seq<char>, class: CharClass)
    ensures
        run(s, class) <= s.len(),
    decreases s.len(),
{
    if s.len() > 0 && in_class(class, s[0]) {
        lemma_run_fits(s.drop_first(), class);
    }
}

/// What the scheduler's text says about a job.
pub open spec fn job_attributes(text: Seq<char>) -> Result<Map<Seq<char>, Seq<char>>, Seq<char>> {
    attributes_onto(text, Map::empty())
}

/// A run is as long as the stretch that belongs to the class and is
/// followed by the end or by a character that does not.
proof fn lemma_run(s: Seq<char>, class: CharClass, n: int)
    requires
        0 <= n <= s.len(),
        forall|j: int| 0 <= j < n ==> in_class(class, #[trigger] s[j]),
        n == s.len() || !in_class(class, s[n]),
    ensures
        run(s, class) == n,
    decreases n,
{
    if n > 0 {
        let t = s.drop_first();
        assert forall|j: int| 0 <= j < n - 1 implies in_class(class, #[trigger] t[j]) by {
            assert(t[j] == s[j + 1]);
        }
        lemma_run(t, class, n - 1);
    }
}

/// Decides [`in_class`].
fn belongs(class: CharClass, c: char) -> (b: bool)
    ensures
        b == in_class(class, c),
{
    match class {
        CharClass::Blank => is_whitespace_char(c),
        CharClass::Solid => !is_whitespace_char(c),
        CharClass::Plain => c != '=',
    }
}

/// The end of the run of `class` that starts at `from` and stays below `to`.
fn scan(chars: &Vec<char>, from: usize, to: usize, class: CharClass) -> (end: usize)
    requires
        from <= to <= chars.len(),
    ensures
        from <= end <= to,
        end - from == run(chars@.subrange(from as int, to as int), class),
{
    let mut end: usize = from;
    let ghost window = chars@.subrange(from as int, to as int);
    while end < to && belongs(class, chars[end])
        invariant
            from <= end <= to <= chars.len(),
            window == chars@.subrange(from as int, to as int),
            forall|j: int| 0 <= j < end - from ==> in_class(class, #[trigger] window[j]),
        decreases to - end,
    {
        assert(window[end - from] == chars@[end as int]);
        end += 1;
    }
    proof {
        if end < to {
            assert(window[end - from] == chars@[end as int]);
        }
        lemma_run(window, class, end - from);
    }
    end
}

/// The scheduler's text held a token that is no `key=value` pair.
#[derive(Debug)]
pub struct MalformedToken {
    /// The token as it stood in the text.
    pub token: String,
}

/// Reads the scheduler's answer about a job into an attribute map.
///
/// The text is split at whitespace. In each token the text before the
/// first `=` is the key, and the text up to the next `=` or the token's end
/// is the value. A key that comes twice keeps its last value. The first
/// token without `=` is refused.
pub fn parse_job_info(text: &str) -> (r: Result<AttributeMap, MalformedToken>)
    ensures
        match r {
            Ok(attrs) => job_attributes(text@) == Ok::<_, Seq<char>>(attrs@),
            Err(e) => job_attributes(text@) == Err::<Map<Seq<char>, Seq<char>>, _>(e.token@),
        },
{
    let chars = chars_of(text);
    let len = chars.len();
    let mut attrs = AttributeMap::new();
    let mut i: usize = 0;
    assert(chars@.skip(0) == text@);
    loop
        invariant
            i <= len == chars.len(),
            job_attributes(text@) == attributes_onto(chars@.skip(i as int), attrs@),
        decreases len - i,
    {
        let ghost s = chars@.skip(i as int);
        let start = scan(&chars, i, len, CharClass::Blank);
        assert(chars@.subrange(i as int, len as int) == s);
        let ghost rest = s.skip(run(s, CharClass::Blank) as int);
        assert(rest == chars@.subrange(start as int, len as int));
        let end = scan(&chars, start, len, CharClass::Solid);
        if end == start {
            return Ok(attrs);
        }
        let ghost token = rest.take(end - start);
        assert(token == chars@.subrange(start as int, end as int));
        let split = scan(&chars, start, end, CharClass::Plain);
        if split == end {
            return Err(MalformedToken { token: string_of_range(&chars, start, end) });
        }
        let stop = scan(&chars, split + 1, end, CharClass::Plain);
        let key = string_of_range(&chars, start, split);
        let value = string_of_range(&chars, split + 1, stop);
        proof {
            let tail = token.skip(split - start + 1);
            assert(tail == chars@.subrange(split + 1, end as int));
            assert(token.take(split - start) == key@);
            assert(tail.take(stop - split - 1) == value@);
            assert(rest.skip(end - start) == chars@.skip(end as int));
        }
        attrs.insert(key, value);
        i = end;
    }
}

} // verus!
