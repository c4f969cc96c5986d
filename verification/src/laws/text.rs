//! Laws of text.

use vstd::prelude::*;

use crate::text;

verus! {

/// Whether all of it is white space.
pub open spec fn all_space(s: Seq<char>) -> bool {
    forall|i: int| 0 <= i < s.len() ==> text::is_space(#[trigger] s[i])
}

/// White space is the tab, the line feed, the vertical tab, the form feed, the
/// carriage return, the space, the next line, the no-break space, and 17 spaces
/// and separators beyond; of the ASCII characters, no letter, digit or sign.
pub proof fn law_white_space(c: char)
    ensures
        text::is_space(c) <==> {
            ||| c == '\t' || c == '\n' || c == '\u{b}' || c == '\u{c}' || c == '\r' || c == ' '
            ||| c == '\u{85}' || c == '\u{a0}' || c == '\u{1680}'
            ||| c == '\u{2000}' || c == '\u{2001}' || c == '\u{2002}' || c == '\u{2003}'
            ||| c == '\u{2004}' || c == '\u{2005}' || c == '\u{2006}' || c == '\u{2007}'
            ||| c == '\u{2008}' || c == '\u{2009}' || c == '\u{200a}'
            ||| c == '\u{2028}' || c == '\u{2029}' || c == '\u{202f}' || c == '\u{205f}'
            ||| c == '\u{3000}'
        },
        '!' <= c <= '~' ==> !text::is_space(c),
{
}

/// Trimming the start takes away white space only, and leaves none in front.
pub proof fn law_trim_start(s: Seq<char>)
    ensures
        ({
            let t = text::trim_start(s);
            &&& t.len() <= s.len()
            &&& t == s.skip(s.len() - t.len())
            &&& all_space(s.take(s.len() - t.len()))
            &&& t.len() > 0 ==> !text::is_space(t[0])
        }),
    decreases s.len(),
{
    let t = text::trim_start(s);
    if s.len() > 0 && text::is_space(s[0]) {
        let rest = s.drop_first();
        law_trim_start(rest);
        let n = s.len() - t.len();
        assert(t =~= s.skip(n));
        assert forall|i: int| 0 <= i < n implies text::is_space(#[trigger] s.take(n)[i]) by {
            if i > 0 {
                assert(s[i] == rest.take(n - 1)[i - 1]);
            }
        }
    } else {
        assert(s.skip(0) =~= s);
    }
}

/// Trimming the end takes away white space only, and leaves none behind.
pub proof fn law_trim_end(s: Seq<char>)
    ensures
        ({
            let t = text::trim_end(s);
            &&& t.len() <= s.len()
            &&& t == s.take(t.len() as int)
            &&& all_space(s.skip(t.len() as int))
            &&& t.len() > 0 ==> !text::is_space(t.last())
        }),
    decreases s.len(),
{
    let t = text::trim_end(s);
    if s.len() > 0 && text::is_space(s.last()) {
        let rest = s.drop_last();
        law_trim_end(rest);
        let n = t.len() as int;
        assert(t =~= s.take(n));
        assert forall|i: int| 0 <= i < s.skip(n).len() implies text::is_space(
            #[trigger] s.skip(n)[i],
        ) by {
            if n + i < rest.len() {
                assert(s[n + i] == rest.skip(n)[i]);
            }
        }
    } else {
        assert(s.take(s.len() as int) =~= s);
    }
}

/// A text is its trimmed text with white space around it, and a trimmed text
/// neither begins nor ends with white space.
pub proof fn law_trim(s: Seq<char>) -> (at: int)
    ensures
        ({
            let t = text::trim(s);
            &&& 0 <= at && at + t.len() <= s.len()
            &&& t == s.subrange(at, at + t.len())
            &&& all_space(s.take(at))
            &&& all_space(s.skip(at + t.len()))
            &&& t.len() > 0 ==> !text::is_space(t[0]) && !text::is_space(t.last())
        }),
{
    let u = text::trim_start(s);
    let t = text::trim(s);
    law_trim_start(s);
    law_trim_end(u);
    let at = s.len() - u.len();
    assert(t =~= s.subrange(at, at + t.len()));
    assert forall|i: int| 0 <= i < s.skip(at + t.len()).len() implies text::is_space(
        #[trigger] s.skip(at + t.len())[i],
    ) by {
        assert(s.skip(at + t.len())[i] == u.skip(t.len() as int)[i]);
    }
    if t.len() > 0 {
        assert(t[0] == u[0]);
    }
    at
}

/// White space around a text makes no difference to its trimmed text.
pub proof fn law_trim_ignores_space_around(before: Seq<char>, s: Seq<char>, after: Seq<char>)
    requires
        all_space(before),
        all_space(after),
        s.len() > 0 ==> !text::is_space(s[0]) && !text::is_space(s.last()),
    ensures
        text::trim(before + s + after) == s,
{
    let whole = before + s + after;
    let at = law_trim(whole);
    let t = text::trim(whole);
    let n = before.len() as int;
    let m = n + s.len();
    assert forall|i: int| 0 <= i < whole.len() && (i < n || i >= m) implies text::is_space(
        #[trigger] whole[i],
    ) by {
        if i < n {
            assert(whole[i] == before[i]);
        } else {
            assert(whole[i] == after[i - m]);
        }
    }
    if s.len() == 0 {
        if t.len() > 0 {
            assert(text::is_space(whole[at]));
            assert(t[0] == whole[at]);
        }
        assert(t =~= s);
    } else {
        assert(whole[n] == s[0]);
        assert(whole[m - 1] == s.last());
        if at > n {
            assert(whole.take(at)[n] == whole[n]);
        }
        if at + t.len() < m {
            assert(whole.skip(at + t.len())[m - 1 - at - t.len()] == whole[m - 1]);
        }
        assert(t.len() > 0);
        if at < n {
            assert(t[0] == whole[at]);
        }
        if at + t.len() > m {
            assert(t.last() == whole[at + t.len() - 1]);
        }
        assert(t =~= s);
    }
}

/// A carriage return behind a line makes no difference to its trimmed text.
pub proof fn lemma_trim_end_of_line(line: Seq<char>)
    ensures
        text::trim(line.push('\r')) == text::trim(line),
{
    let at = law_trim(line);
    let t = text::trim(line);
    let before = line.take(at);
    let after = line.skip(at + t.len()).push('\r');
    assert forall|i: int| 0 <= i < after.len() implies text::is_space(#[trigger] after[i]) by {
        if i < after.len() - 1 {
            assert(after[i] == line.skip(at + t.len())[i]);
        }
    }
    law_trim_ignores_space_around(before, t, after);
    assert(before + t + after =~= line.push('\r'));
}

/// What follows a prefix is exactly what was put behind it.
pub proof fn law_strip_prefix(s: Seq<char>, prefix: Seq<char>, rest: Seq<char>)
    ensures
        text::strip_prefix(s, prefix) == Some(rest) <==> s == prefix + rest,
        text::strip_prefix(s, prefix) is None ==> s != prefix + rest,
{
    if s == prefix + rest {
        assert(s.subrange(0, prefix.len() as int) =~= prefix);
        assert(s.skip(prefix.len() as int) =~= rest);
    }
    if text::strip_prefix(s, prefix) == Some(rest) {
        assert(s =~= prefix + rest);
    }
}

/// A text holds a part if and only if it is that part with something before it
/// and something after it.
pub proof fn law_contains(s: Seq<char>, part: Seq<char>)
    ensures
        text::contains(s, part) <==> exists|a: Seq<char>, b: Seq<char>| s == #[trigger] (a + part + b),
{
    if text::contains(s, part) {
        let i = choose|i: int| text::stands_at(s, part, i);
        let a = s.take(i);
        let b = s.skip(i + part.len());
        assert(s =~= a + part + b);
    }
    if exists|a: Seq<char>, b: Seq<char>| s == #[trigger] (a + part + b) {
        let (a, b) = choose|a: Seq<char>, b: Seq<char>| s == #[trigger] (a + part + b);
        assert(s.subrange(a.len() as int, (a.len() + part.len()) as int) =~= part);
        assert(text::stands_at(s, part, a.len() as int));
    }
}

/// The first place of a part is a place where it stands, and it stands nowhere
/// before.
pub proof fn law_first_place(s: Seq<char>, part: Seq<char>)
    requires
        text::contains(s, part),
    ensures
        ({
            let i = text::first_place(s, part);
            &&& 0 <= i && i + part.len() <= s.len()
            &&& s.subrange(i, i + part.len()) == part
            &&& forall|j: int|
                0 <= j < i ==> #[trigger] s.subrange(j, j + part.len()) != part
        }),
{
    let k = choose|k: int| text::stands_at(s, part, k);
    lemma_least(s, part, k);
    let i = text::first_place(s, part);
    assert(text::is_first_place(s, part, i));
    assert forall|j: int| 0 <= j < i implies #[trigger] s.subrange(j, j + part.len()) != part by {
        assert(!text::stands_at(s, part, j));
    }
}

proof fn lemma_least(s: Seq<char>, part: Seq<char>, k: int)
    requires
        text::stands_at(s, part, k),
    ensures
        exists|i: int| text::is_first_place(s, part, i),
    decreases k,
{
    if exists|j: int| 0 <= j < k && text::stands_at(s, part, j) {
        let j = choose|j: int| 0 <= j < k && text::stands_at(s, part, j);
        lemma_least(s, part, j);
    } else {
        assert(text::is_first_place(s, part, k));
    }
}

/// What comes before a character is everything up to where it first stands.
pub proof fn law_before(a: Seq<char>, c: char, b: Seq<char>)
    requires
        forall|i: int| 0 <= i < a.len() ==> #[trigger] a[i] != c,
    ensures
        text::before(a + seq![c] + b, c) == a,
        text::before(a, c) == a,
    decreases a.len(),
{
    let s = a + seq![c] + b;
    if a.len() == 0 {
        assert(s[0] == c);
        assert(s.take(0) =~= a);
        assert(a.take(0) =~= a);
    } else {
        let rest = a.drop_first();
        assert forall|i: int| 0 <= i < rest.len() implies #[trigger] rest[i] != c by {
            assert(rest[i] == a[i + 1]);
        }
        law_before(rest, c, b);
        assert(s[0] == a[0]);
        assert(s.drop_first() =~= rest + seq![c] + b);
        let n = text::position(rest + seq![c] + b, c) as int;
        let m = text::position(rest, c) as int;
        assert((rest + seq![c] + b).take(n).len() == rest.len()) by {
            lemma_position_bound(rest + seq![c] + b, c);
        }
        assert(rest.take(m).len() == rest.len()) by {
            lemma_position_bound(rest, c);
        }
        lemma_position_bound(rest + seq![c] + b, c);
        lemma_position_bound(rest, c);
        assert(n == rest.len());
        assert(m == rest.len());
        assert(s.take(n + 1) =~= a);
        assert(a.take(m + 1) =~= a);
    }
}

pub proof fn lemma_position_bound(s: Seq<char>, c: char)
    ensures
        text::position(s, c) <= s.len(),
    decreases s.len(),
{
    if s.len() > 0 && s[0] != c {
        lemma_position_bound(s.drop_first(), c);
    }
}

/// A line feed ends a line, and what follows it has the lines that it has by
/// itself. A carriage return before the line feed belongs to the ending, and
/// any other is part of the line. The last line needs no ending.
pub proof fn law_lines(line: Seq<char>, rest: Seq<char>)
    requires
        forall|i: int| 0 <= i < line.len() ==> #[trigger] line[i] != '\n',
    ensures
        text::lines(Seq::empty()) == Seq::<Seq<char>>::empty(),
        line.len() > 0 ==> text::lines(line) == seq![line],
        text::lines(line + seq!['\r', '\n'] + rest) == seq![line] + text::lines(rest),
        line.len() == 0 || line.last() != '\r' ==> text::lines(line + seq!['\n'] + rest)
            == seq![line] + text::lines(rest),
{
    lemma_lines_of_one(line);
    let ended = line.push('\r');
    assert forall|i: int| 0 <= i < ended.len() implies #[trigger] ended[i] != '\n' by {
        if i < line.len() {
            assert(ended[i] == line[i]);
        }
    }
    lemma_lines_of_more(ended, rest);
    assert(line + seq!['\r', '\n'] + rest =~= ended + seq!['\n'] + rest);
    assert(ended.drop_last() =~= line);
    lemma_lines_of_more(line, rest);
}

proof fn lemma_lines_of_one(line: Seq<char>)
    requires
        forall|i: int| 0 <= i < line.len() ==> #[trigger] line[i] != '\n',
    ensures
        line.len() > 0 ==> text::lines(line) == seq![line],
{
    law_before(line, '\n', Seq::empty());
    lemma_position_bound(line, '\n');
    assert(line.take(text::position(line, '\n') as int).len() == line.len());
}

proof fn lemma_lines_of_more(line: Seq<char>, rest: Seq<char>)
    requires
        forall|i: int| 0 <= i < line.len() ==> #[trigger] line[i] != '\n',
    ensures
        text::lines(line + seq!['\n'] + rest) == seq![
            if line.len() > 0 && line.last() == '\r' { line.drop_last() } else { line },
        ] + text::lines(rest),
{
    let s = line + seq!['\n'] + rest;
    law_before(line, '\n', rest);
    lemma_position_bound(s, '\n');
    let n = text::position(s, '\n') as int;
    assert(s.take(n).len() == line.len());
    assert(n == line.len());
    assert(s.take(n) =~= line);
    assert(s.skip(n + 1) =~= rest);
}

/// Lines that are put before others leave those as they are.
pub proof fn law_lines_of_whole_lines(before: Seq<char>, rest: Seq<char>)
    requires
        before.len() == 0 || before.last() == '\n',
    ensures
        text::lines(before + rest) == text::lines(before) + text::lines(rest),
    decreases before.len(),
{
    if before.len() == 0 {
        assert(before + rest =~= rest);
        assert(text::lines(before) + text::lines(rest) =~= text::lines(rest));
    } else {
        lemma_position_of(before, '\n', before.len() - 1);
        let n = text::position(before, '\n') as int;
        let line = before.take(n);
        let more = before.skip(n + 1);
        if more.len() > 0 {
            assert(more.last() == before.last());
        }
        law_lines_of_whole_lines(more, rest);
        lemma_lines_of_more(line, more);
        lemma_lines_of_more(line, more + rest);
        assert(line + seq!['\n'] + more =~= before);
        assert(line + seq!['\n'] + (more + rest) =~= before + rest);
        assert(text::lines(before + rest) =~= text::lines(before) + text::lines(rest));
    }
}

pub proof fn lemma_position_is_first(s: Seq<char>, c: char)
    ensures
        text::position(s, c) <= s.len(),
        text::position(s, c) < s.len() ==> s[text::position(s, c) as int] == c,
        forall|i: int| 0 <= i < text::position(s, c) ==> #[trigger] s[i] != c,
    decreases s.len(),
{
    if s.len() > 0 && s[0] != c {
        let rest = s.drop_first();
        lemma_position_is_first(rest, c);
        assert forall|i: int| 0 <= i < text::position(s, c) implies #[trigger] s[i] != c by {
            if i > 0 {
                assert(s[i] == rest[i - 1]);
            }
        }
    }
}

pub proof fn lemma_position_of(s: Seq<char>, c: char, at: int)
    requires
        0 <= at < s.len(),
        s[at] == c,
    ensures
        text::position(s, c) <= at,
        s[text::position(s, c) as int] == c,
        forall|i: int| 0 <= i < text::position(s, c) ==> #[trigger] s[i] != c,
    decreases s.len(),
{
    if s[0] != c {
        let rest = s.drop_first();
        lemma_position_of(rest, c, at - 1);
        assert forall|i: int| 0 <= i < text::position(s, c) implies #[trigger] s[i] != c by {
            if i > 0 {
                assert(s[i] == rest[i - 1]);
            }
        }
    }
}

/// The first word stands behind white space only, holds none, and ends at
/// white space or at the end. Only a text of white space has none.
pub proof fn law_first_word(s: Seq<char>) -> (at: int)
    ensures
        text::first_word(s) is None <==> all_space(s),
        text::first_word(s) is Some ==> {
            let w = text::first_word(s)->0;
            &&& 0 <= at && at + w.len() <= s.len()
            &&& w.len() > 0
            &&& w == s.subrange(at, at + w.len())
            &&& all_space(s.take(at))
            &&& forall|i: int| 0 <= i < w.len() ==> !text::is_space(#[trigger] w[i])
            &&& at + w.len() < s.len() ==> text::is_space(s[at + w.len()])
        },
{
    let t = text::trim_start(s);
    law_trim_start(s);
    let at = s.len() - t.len();
    if t.len() == 0 {
        assert(s.take(at) =~= s);
    } else {
        assert(s[at] == t[0]);
        lemma_word_len(t);
        let w = t.take(text::word_len(t) as int);
        assert(w =~= s.subrange(at, at + w.len()));
        if at + w.len() < s.len() {
            assert(s[at + w.len()] == t[w.len() as int]);
        }
    }
    at
}

proof fn lemma_word_len(t: Seq<char>)
    ensures
        text::word_len(t) <= t.len(),
        forall|i: int| 0 <= i < text::word_len(t) ==> !text::is_space(#[trigger] t[i]),
        text::word_len(t) < t.len() ==> text::is_space(t[text::word_len(t) as int]),
        t.len() > 0 && !text::is_space(t[0]) ==> text::word_len(t) > 0,
    decreases t.len(),
{
    if t.len() > 0 && !text::is_space(t[0]) {
        let rest = t.drop_first();
        lemma_word_len(rest);
        assert forall|i: int| 0 <= i < text::word_len(t) implies !text::is_space(#[trigger] t[i]) by {
            if i > 0 {
                assert(t[i] == rest[i - 1]);
            }
        }
    }
}

/// Padding keeps the text and adds nothing but spaces, on the one side or on
/// the other, until the width is reached.
pub proof fn law_padding(s: Seq<char>, width: nat)
    ensures
        ({
            let right = text::pad_right(s, width);
            let left = text::pad_left(s, width);
            let n = if s.len() < width { width } else { s.len() };
            &&& right.len() == n
            &&& left.len() == n
            &&& right.take(s.len() as int) == s
            &&& left.skip(n - s.len()) == s
            &&& forall|i: int| s.len() <= i < n ==> #[trigger] right[i] == ' '
            &&& forall|i: int| 0 <= i < n - s.len() ==> #[trigger] left[i] == ' '
        }),
{
    let n = if s.len() < width { width } else { s.len() };
    assert(text::pad_right(s, width).take(s.len() as int) =~= s);
    assert(text::pad_left(s, width).skip(n - s.len()) =~= s);
}

/// The view of an optional text is there if the text is, and is its text; the
/// view of a result is the text of the result, on the same side.
pub proof fn law_views_keep_the_text(o: Option<String>, r: Result<String, String>)
    ensures
        o is Some <==> text::option_view(o) is Some,
        o is Some ==> text::option_view(o)->0 == o->0@,
        r is Ok <==> text::result_view(r) is Ok,
        r is Ok ==> text::result_view(r)->Ok_0 == r->Ok_0@,
        r is Err ==> text::result_view(r)->Err_0 == r->Err_0@,
{
}

} // verus!
