//! Text as sequences of characters: trimming, searching and splitting.

use vstd::prelude::*;
use vstd::slice::slice_subrange;

verus! {

// ---------- what the operations mean ----------

/// The characters with the Unicode property `White_Space`.
pub open spec fn is_space(c: char) -> bool {
    let n = c as u32;
    ||| 0x09 <= n <= 0x0d
    ||| n == 0x20
    ||| n == 0x85
    ||| n == 0xa0
    ||| n == 0x1680
    ||| 0x2000 <= n <= 0x200a
    ||| n == 0x2028
    ||| n == 0x2029
    ||| n == 0x202f
    ||| n == 0x205f
    ||| n == 0x3000
}

/// `s` without its leading white space.
pub open spec fn trim_start(s: Seq<char>) -> Seq<char>
    decreases s.len(),
{
    if s.len() > 0 && is_space(s[0]) {
        trim_start(s.drop_first())
    } else {
        s
    }
}

/// `s` without its trailing white space.
pub open spec fn trim_end(s: Seq<char>) -> Seq<char>
    decreases s.len(),
{
    if s.len() > 0 && is_space(s.last()) {
        trim_end(s.drop_last())
    } else {
        s
    }
}

/// `s` without the white space around it.
pub open spec fn trim(s: Seq<char>) -> Seq<char> {
    trim_end(trim_start(s))
}

/// What follows `prefix` in `s`, if `s` begins with it.
pub open spec fn strip_prefix(s: Seq<char>, prefix: Seq<char>) -> Option<Seq<char>> {
    if prefix.is_prefix_of(s) {
        Some(s.skip(prefix.len() as int))
    } else {
        None
    }
}

/// Whether `part` stands in `s` at position `i`.
pub open spec fn stands_at(s: Seq<char>, part: Seq<char>, i: int) -> bool {
    0 <= i && i + part.len() <= s.len() && s.subrange(i, i + part.len()) == part
}

/// Whether `part` stands somewhere in `s`.
pub open spec fn contains(s: Seq<char>, part: Seq<char>) -> bool {
    exists|i: int| stands_at(s, part, i)
}

/// Whether `i` is the first position at which `part` stands in `s`.
pub open spec fn is_first_place(s: Seq<char>, part: Seq<char>, i: int) -> bool {
    stands_at(s, part, i) && forall|j: int| 0 <= j < i ==> !stands_at(s, part, j)
}

/// The first position at which `part` stands in `s`, where there is one.
pub open spec fn first_place(s: Seq<char>, part: Seq<char>) -> int {
    choose|i: int| is_first_place(s, part, i)
}

/// How many characters of `s` come before the first `c`: all of them if there
/// is none.
pub open spec fn position(s: Seq<char>, c: char) -> nat
    decreases s.len(),
{
    if s.len() == 0 || s[0] == c {
        0
    } else {
        1 + position(s.drop_first(), c)
    }
}

/// The part of `s` before the first `c`.
pub open spec fn before(s: Seq<char>, c: char) -> Seq<char> {
    s.take(position(s, c) as int)
}

/// A line without the carriage return that belongs to its line ending.
pub open spec fn without_return(s: Seq<char>) -> Seq<char> {
    if s.len() > 0 && s.last() == '\r' {
        s.drop_last()
    } else {
        s
    }
}

/// The lines of `s`. Each ends at a line feed, which may follow a carriage
/// return; the last may do without an ending.
pub open spec fn lines(s: Seq<char>) -> Seq<Seq<char>>
    decreases s.len(),
{
    if s.len() == 0 {
        Seq::empty()
    } else if position(s, '\n') >= s.len() {
        seq![s]
    } else {
        let n = position(s, '\n') as int;
        seq![without_return(s.take(n))] + lines(s.skip(n + 1))
    }
}

/// How many characters of `s` come before the first white space.
pub open spec fn word_len(s: Seq<char>) -> nat
    decreases s.len(),
{
    if s.len() == 0 || is_space(s[0]) {
        0
    } else {
        1 + word_len(s.drop_first())
    }
}

/// The first of the words in `s` that white space separates.
pub open spec fn first_word(s: Seq<char>) -> Option<Seq<char>> {
    let t = trim_start(s);
    if t.len() == 0 {
        None
    } else {
        Some(t.take(word_len(t) as int))
    }
}

/// `n` copies of `c`.
pub open spec fn repeated(c: char, n: nat) -> Seq<char> {
    Seq::new(n, |i: int| c)
}

/// `s` with spaces after it, up to `width` characters.
pub open spec fn pad_right(s: Seq<char>, width: nat) -> Seq<char> {
    if s.len() < width {
        s + repeated(' ', (width - s.len()) as nat)
    } else {
        s
    }
}

/// `s` with spaces before it, up to `width` characters.
pub open spec fn pad_left(s: Seq<char>, width: nat) -> Seq<char> {
    if s.len() < width {
        repeated(' ', (width - s.len()) as nat) + s
    } else {
        s
    }
}

/// The text inside, if there is one.
pub open spec fn option_view(o: Option<String>) -> Option<Seq<char>> {
    match o {
        Some(s) => Some(s@),
        None => None,
    }
}

/// The text of a result.
pub open spec fn result_view(r: Result<String, String>) -> Result<Seq<char>, Seq<char>> {
    match r {
        Ok(s) => Ok(s@),
        Err(e) => Err(e@),
    }
}

// ---------- lemmas ----------

proof fn lemma_first_place(s: Seq<char>, part: Seq<char>, i: int)
    requires
        is_first_place(s, part, i),
    ensures
        first_place(s, part) == i,
{
    let j = first_place(s, part);
    assert(is_first_place(s, part, j));
    if j < i {
        assert(stands_at(s, part, j));
    }
    if i < j {
        assert(stands_at(s, part, i));
    }
}

proof fn lemma_position(s: Seq<char>, c: char)
    ensures
        position(s, c) <= s.len(),
        position(s, c) < s.len() ==> s[position(s, c) as int] == c,
        forall|i: int| 0 <= i < position(s, c) ==> s[i] != c,
    decreases s.len(),
{
    if s.len() > 0 && s[0] != c {
        let rest = s.drop_first();
        lemma_position(rest, c);
        assert forall|i: int| 0 <= i < position(s, c) implies s[i] != c by {
            if i > 0 {
                assert(s[i] == rest[i - 1]);
            }
        }
    }
}

proof fn lemma_position_is(s: Seq<char>, c: char, n: int)
    requires
        0 <= n <= s.len(),
        forall|i: int| 0 <= i < n ==> s[i] != c,
        n < s.len() ==> s[n] == c,
    ensures
        position(s, c) == n,
{
    lemma_position(s, c);
    if position(s, c) < n {
        assert(s[position(s, c) as int] != c);
    }
}

proof fn lemma_trim_start(s: Seq<char>, n: int)
    requires
        0 <= n <= s.len(),
        forall|i: int| 0 <= i < n ==> is_space(s[i]),
        n < s.len() ==> !is_space(s[n]),
    ensures
        trim_start(s) == s.skip(n),
    decreases s.len(),
{
    if n > 0 {
        let rest = s.drop_first();
        assert forall|i: int| 0 <= i < n - 1 implies is_space(rest[i]) by {
            assert(rest[i] == s[i + 1]);
        }
        lemma_trim_start(rest, n - 1);
        assert(rest.skip(n - 1) =~= s.skip(n));
    } else {
        assert(s.skip(0) =~= s);
    }
}

proof fn lemma_trim_end(s: Seq<char>, n: int)
    requires
        0 <= n <= s.len(),
        forall|i: int| n <= i < s.len() ==> is_space(s[i]),
        n > 0 ==> !is_space(s[n - 1]),
    ensures
        trim_end(s) == s.take(n),
    decreases s.len(),
{
    if n < s.len() {
        lemma_trim_end(s.drop_last(), n);
        assert(s.drop_last().take(n) =~= s.take(n));
    } else {
        assert(s.take(n) =~= s);
    }
}

proof fn lemma_word_len(s: Seq<char>, n: int)
    requires
        0 <= n <= s.len(),
        forall|i: int| 0 <= i < n ==> !is_space(s[i]),
        n < s.len() ==> is_space(s[n]),
    ensures
        word_len(s) == n,
    decreases s.len(),
{
    if n > 0 {
        let rest = s.drop_first();
        assert forall|i: int| 0 <= i < n - 1 implies !is_space(rest[i]) by {
            assert(rest[i] == s[i + 1]);
        }
        lemma_word_len(rest, n - 1);
    }
}

// ---------- executable text ----------

/// `String::push` puts the character at the end of the text.
pub assume_specification[ String::push ](s: &mut String, c: char)
    ensures
        final(s)@ == old(s)@.push(c),
;

/// `String::pop` takes the last character away and returns it; an empty text
/// stays as it is and gives `None`.
pub assume_specification[ String::pop ](s: &mut String) -> (last: Option<char>)
    ensures
        old(s)@.len() == 0 ==> last is None && final(s)@ == old(s)@,
        old(s)@.len() > 0 ==> last == Some(old(s)@.last()) && final(s)@ == old(s)@.drop_last(),
;

/// `String::clear` leaves the empty text.
pub assume_specification[ String::clear ](s: &mut String)
    ensures
        final(s)@ == Seq::<char>::empty(),
;

/// The characters of a text.
pub fn chars_of(s: &str) -> (v: Vec<char>)
    ensures
        v@ == s@,
{
    let mut v: Vec<char> = Vec::new();
    for c in it: s.chars()
        invariant
            v@ == it.seq().take(it.index() as int),
            it.seq() == s@,
    {
        v.push(c);
    }
    v
}

/// The text made of the given characters.
pub fn text_of(v: &[char]) -> (s: String)
    ensures
        s@ == v@,
{
    let mut s = String::new();
    let mut i: usize = 0;
    while i < v.len()
        invariant
            i <= v@.len(),
            s@ == v@.take(i as int),
        decreases v@.len() - i,
    {
        s.push(v[i]);
        i += 1;
    }
    assert(v@.take(v@.len() as int) =~= v@);
    s
}

/// Whether `a` and `b` are the same text.
pub fn same_text(a: &str, b: &str) -> (same: bool)
    ensures
        same == (a@ == b@),
{
    a.to_string() == b.to_string()
}

/// Whether `c` is white space.
pub fn is_white_space(c: char) -> (space: bool)
    ensures
        space == is_space(c),
{
    let n: u32 = c as u32;
    (0x09 <= n && n <= 0x0d) || n == 0x20 || n == 0x85 || n == 0xa0 || n == 0x1680 || (0x2000 <= n
        && n <= 0x200a) || n == 0x2028 || n == 0x2029 || n == 0x202f || n == 0x205f || n == 0x3000
}

/// The characters that are left without leading white space.
pub fn trimmed_start(s: &[char]) -> (t: &[char])
    ensures
        t@ == trim_start(s@),
{
    let mut i: usize = 0;
    while i < s.len() && is_white_space(s[i])
        invariant
            i <= s@.len(),
            forall|k: int| 0 <= k < i ==> is_space(#[trigger] s@[k]),
        decreases s@.len() - i,
    {
        i += 1;
    }
    proof {
        lemma_trim_start(s@, i as int);
    }
    slice_subrange(s, i, s.len())
}

/// The characters that are left without trailing white space.
pub fn trimmed_end(s: &[char]) -> (t: &[char])
    ensures
        t@ == trim_end(s@),
{
    let mut n: usize = s.len();
    while n > 0 && is_white_space(s[n - 1])
        invariant
            n <= s@.len(),
            forall|k: int| n <= k < s@.len() ==> is_space(#[trigger] s@[k]),
        decreases n,
    {
        n -= 1;
    }
    proof {
        lemma_trim_end(s@, n as int);
    }
    slice_subrange(s, 0, n)
}

/// The characters that are left without white space around them.
pub fn trimmed(s: &[char]) -> (t: &[char])
    ensures
        t@ == trim(s@),
{
    trimmed_end(trimmed_start(s))
}

/// Whether `part` stands in `s` at position `i`.
pub fn matches_at(s: &[char], part: &[char], i: usize) -> (matches: bool)
    requires
        i <= s@.len(),
    ensures
        matches == stands_at(s@, part@, i as int),
{
    let total: usize = s.len();
    if total - i < part.len() {
        return false;
    }
    let mut k: usize = 0;
    while k < part.len()
        invariant
            k <= part@.len(),
            i + part@.len() <= s@.len() == total,
            forall|j: int| 0 <= j < k ==> s@[i + j] == part@[j],
        decreases part@.len() - k,
    {
        if s[i + k] != part[k] {
            assert(s@.subrange(i as int, i + part@.len())[k as int] != part@[k as int]);
            return false;
        }
        k += 1;
    }
    assert(s@.subrange(i as int, i + part@.len()) =~= part@);
    true
}

/// What follows `prefix` in `s`, if `s` begins with it.
pub fn stripped<'a>(s: &'a [char], prefix: &str) -> (rest: Option<&'a [char]>)
    ensures
        strip_prefix(s@, prefix@) is Some <==> rest is Some,
        rest is Some ==> rest->0@ == strip_prefix(s@, prefix@)->0,
{
    let p = chars_of(prefix);
    if matches_at(s, p.as_slice(), 0) {
        Some(slice_subrange(s, p.len(), s.len()))
    } else {
        proof {
            if prefix@.is_prefix_of(s@) {
                assert(stands_at(s@, prefix@, 0));
            }
        }
        None
    }
}

/// The first position at which `part` stands in `s`.
pub fn find(s: &[char], part: &str) -> (place: Option<usize>)
    ensures
        place is Some <==> contains(s@, part@),
        place is Some ==> is_first_place(s@, part@, place->0 as int),
        place is Some ==> place->0 == first_place(s@, part@),
{
    let p = chars_of(part);
    let mut i: usize = 0;
    while i < s.len()
        invariant
            i <= s@.len(),
            p@ == part@,
            forall|j: int| 0 <= j < i ==> !stands_at(s@, part@, j),
        decreases s@.len() - i,
    {
        if matches_at(s, p.as_slice(), i) {
            proof {
                lemma_first_place(s@, part@, i as int);
            }
            return Some(i);
        }
        i += 1;
    }
    if matches_at(s, p.as_slice(), i) {
        proof {
            lemma_first_place(s@, part@, i as int);
        }
        return Some(i);
    }
    None
}

/// The characters of `s` before the first `c`.
pub fn cut_at(s: &[char], c: char) -> (t: &[char])
    ensures
        t@ == before(s@, c),
{
    let mut i: usize = 0;
    while i < s.len() && s[i] != c
        invariant
            i <= s@.len(),
            forall|k: int| 0 <= k < i ==> s@[k] != c,
        decreases s@.len() - i,
    {
        i += 1;
    }
    proof {
        lemma_position_is(s@, c, i as int);
    }
    slice_subrange(s, 0, i)
}

/// The first of the words in `s` that white space separates.
pub fn leading_word(s: &[char]) -> (word: Option<&[char]>)
    ensures
        first_word(s@) is Some <==> word is Some,
        word is Some ==> word->0@ == first_word(s@)->0,
{
    let t = trimmed_start(s);
    if t.len() == 0 {
        return None;
    }
    let mut i: usize = 0;
    while i < t.len() && !is_white_space(t[i])
        invariant
            i <= t@.len(),
            forall|k: int| 0 <= k < i ==> !is_space(#[trigger] t@[k]),
        decreases t@.len() - i,
    {
        i += 1;
    }
    proof {
        lemma_word_len(t@, i as int);
    }
    Some(slice_subrange(t, 0, i))
}

/// The lines of `s`.
pub fn split_lines(s: &[char]) -> (parts: Vec<Vec<char>>)
    ensures
        parts@.map_values(|l: Vec<char>| l@) == lines(s@),
{
    let mut parts: Vec<Vec<char>> = Vec::new();
    let mut start: usize = 0;
    assert(s@.skip(0) =~= s@);
    assert(parts@.map_values(|l: Vec<char>| l@) + lines(s@) =~= lines(s@));
    while start < s.len()
        invariant
            start <= s@.len(),
            parts@.map_values(|l: Vec<char>| l@) + lines(s@.skip(start as int)) == lines(s@),
        decreases s@.len() - start,
    {
        let rest = slice_subrange(s, start, s.len());
        let line = cut_at(rest, '\n');
        let n: usize = line.len();
        let ghost done = parts@.map_values(|l: Vec<char>| l@);
        proof {
            lemma_position(rest@, '\n');
        }
        if n == rest.len() {
            let part = slice_to_chars(line);
            assert(rest@.take(n as int) =~= rest@);
            parts.push(part);
            assert(parts@.map_values(|l: Vec<char>| l@) =~= done.push(rest@));
            assert(done + seq![rest@] =~= done.push(rest@));
            start = s.len();
            assert(s@.skip(start as int).len() == 0);
            assert(done.push(rest@) + Seq::<Seq<char>>::empty() =~= done.push(rest@));
            assert(lines(s@.skip(start as int)) =~= Seq::<Seq<char>>::empty());
        } else {
            let kept = if n > 0 && line[n - 1] == '\r' {
                slice_subrange(line, 0, n - 1)
            } else {
                line
            };
            assert(kept@ =~= without_return(line@));
            let part = slice_to_chars(kept);
            parts.push(part);
            start = start + n + 1;
            assert(parts@.map_values(|l: Vec<char>| l@) =~= done.push(kept@));
            assert(rest@.skip(n + 1) =~= s@.skip(start as int));
            let ghost tail = lines(s@.skip(start as int));
            assert(done + (seq![kept@] + tail) =~= done.push(kept@) + tail);
        }
    }
    assert(s@.skip(start as int).len() == 0);
    assert(lines(s@.skip(start as int)) =~= Seq::<Seq<char>>::empty());
    assert(parts@.map_values(|l: Vec<char>| l@) =~= parts@.map_values(|l: Vec<char>| l@)
        + Seq::<Seq<char>>::empty());
    parts
}

/// The characters of a slice, as a vector.
pub fn slice_to_chars(s: &[char]) -> (v: Vec<char>)
    ensures
        v@ == s@,
{
    let mut v: Vec<char> = Vec::new();
    let mut i: usize = 0;
    while i < s.len()
        invariant
            i <= s@.len(),
            v@ == s@.take(i as int),
        decreases s@.len() - i,
    {
        v.push(s[i]);
        i += 1;
    }
    assert(s@.take(s@.len() as int) =~= s@);
    v
}

/// `n` copies of `c`.
pub fn repeat_char(c: char, n: usize) -> (s: String)
    ensures
        s@ == repeated(c, n as nat),
{
    let mut s = String::new();
    let mut i: usize = 0;
    while i < n
        invariant
            i <= n,
            s@ == repeated(c, i as nat),
        decreases n - i,
    {
        s.push(c);
        i += 1;
        assert(s@ =~= repeated(c, i as nat));
    }
    s
}

/// `a` followed by `b`.
pub fn join(a: &str, b: &str) -> (s: String)
    ensures
        s@ == a@ + b@,
{
    a.to_string().concat(b)
}

/// `a`, `b` and `c`, one after the other.
pub fn join3(a: &str, b: &str, c: &str) -> (s: String)
    ensures
        s@ == a@ + b@ + c@,
{
    a.to_string().concat(b).concat(c)
}

/// `s` with spaces after it, up to `width` characters.
pub fn padded_right(s: &str, width: usize) -> (t: String)
    ensures
        t@ == pad_right(s@, width as nat),
{
    let n: usize = s.unicode_len();
    if n < width {
        join(s, repeat_char(' ', width - n).as_str())
    } else {
        s.to_string()
    }
}

/// `s` with spaces before it, up to `width` characters.
pub fn padded_left(s: &str, width: usize) -> (t: String)
    ensures
        t@ == pad_left(s@, width as nat),
{
    let n: usize = s.unicode_len();
    if n < width {
        join(repeat_char(' ', width - n).as_str(), s)
    } else {
        s.to_string()
    }
}

// ---------- text from outside ----------

/// The text that `String::from_utf8_lossy` reads in some bytes.
pub uninterp spec fn utf8_lossy(bytes: Seq<u8>) -> Seq<char>;

/// `String::from_utf8_lossy` gives a text that depends on the bytes alone, and
/// on valid UTF-8 the text that it encodes. Which replacement characters stand
/// for malformed bytes is left unsaid.
#[verifier::external_body]
pub(crate) fn decode_lossy(bytes: &[u8]) -> (s: String)
    ensures
        s@ == utf8_lossy(bytes@),
        vstd::utf8::valid_utf8(bytes@) ==> s@ == vstd::utf8::decode_utf8(bytes@),
{
    String::from_utf8_lossy(bytes).into_owned()
}

/// The text that `str::to_lowercase` makes of a text.
pub uninterp spec fn lowercase(s: Seq<char>) -> Seq<char>;

/// `str::to_lowercase` gives a text that depends on the given text alone. The
/// Unicode tables it follows are left unsaid.
#[verifier::external_body]
pub(crate) fn to_lowercase(s: &str) -> (t: String)
    ensures
        t@ == lowercase(s@),
{
    s.to_lowercase()
}

} // verus!
