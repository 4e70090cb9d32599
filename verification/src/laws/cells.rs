//! Texts made of cells: an escape sequence and a character for each.
use vstd::prelude::*;

use crate::export::ESCAPE;
use crate::laws::numerals::one_escape;

verus! {

/// How often a character stands in a text.
pub open spec fn count_of(text: Seq<char>, c: char) -> nat
    decreases text.len(),
{
    if text.len() == 0 {
        0
    } else {
        count_of(text.drop_last(), c) + (if text.last() == c {
            1nat
        } else {
            0nat
        })
    }
}

/// A character stands in two texts together as often as in both.
pub proof fn lemma_count_of_parts(a: Seq<char>, b: Seq<char>, c: char)
    ensures
        count_of(a + b, c) == count_of(a, c) + count_of(b, c),
    decreases b.len(),
{
    if b.len() == 0 {
        assert(a + b =~= a);
    } else {
        lemma_count_of_parts(a, b.drop_last(), c);
        assert((a + b).drop_last() =~= a + b.drop_last());
    }
}

/// A character that does not stand in a text.
pub proof fn lemma_count_none(text: Seq<char>, c: char)
    requires
        forall|i: int| 0 <= i < text.len() ==> #[trigger] text[i] != c,
    ensures
        count_of(text, c) == 0,
    decreases text.len(),
{
    if text.len() > 0 {
        assert forall|i: int| 0 <= i < text.drop_last().len() implies #[trigger] text.drop_last()[i]
            != c by {
            assert(text[i] != c);
        }
        lemma_count_none(text.drop_last(), c);
        assert(text[text.len() - 1] != c);
    }
}

/// A text of one character.
pub proof fn lemma_count_one(d: char, c: char)
    ensures
        count_of(seq![d], c) == (if c == d {
            1nat
        } else {
            0nat
        }),
{
    assert(seq![d].drop_last() =~= Seq::<char>::empty());
    assert(count_of(Seq::<char>::empty(), c) == 0);
}

/// What an escape sequence counts for.
pub proof fn lemma_count_code(code: Seq<char>)
    requires
        one_escape(code),
    ensures
        count_of(code, ESCAPE) == 1,
        count_of(code, '\n') == 0,
{
    let rest = code.drop_first();
    assert(code =~= seq![ESCAPE] + rest);
    assert forall|i: int| 0 <= i < rest.len() implies #[trigger] rest[i] != ESCAPE && rest[i]
        != '\n' by {
        assert(code[i + 1] != ESCAPE);
    }
    lemma_count_none(rest, ESCAPE);
    lemma_count_none(rest, '\n');
    lemma_count_one(ESCAPE, ESCAPE);
    lemma_count_one(ESCAPE, '\n');
    lemma_count_of_parts(seq![ESCAPE], rest, ESCAPE);
    lemma_count_of_parts(seq![ESCAPE], rest, '\n');
}

/// Whether an escape sequence stands in a text with a character right behind
/// it, after as many escape characters and line breaks as given.
pub open spec fn stands(
    text: Seq<char>,
    escapes: int,
    breaks: int,
    code: Seq<char>,
    glyph: char,
) -> bool {
    exists|at: int| #[trigger] stands_at(text, at, escapes, breaks, code, glyph)
}

/// Whether an escape sequence stands at a place in a text.
pub open spec fn stands_at(
    text: Seq<char>,
    at: int,
    escapes: int,
    breaks: int,
    code: Seq<char>,
    glyph: char,
) -> bool {
    &&& 0 <= at
    &&& at + code.len() < text.len()
    &&& text.subrange(at, at + code.len()) == code
    &&& text[at + code.len()] == glyph
    &&& count_of(text.take(at), ESCAPE) == escapes
    &&& count_of(text.take(at), '\n') == breaks
}

/// What stands in a text stands in it with more text around.
pub proof fn lemma_stands_within(
    before: Seq<char>,
    text: Seq<char>,
    after: Seq<char>,
    escapes: int,
    breaks: int,
    code: Seq<char>,
    glyph: char,
)
    requires
        stands(text, escapes, breaks, code, glyph),
    ensures
        stands(
            before + text + after,
            count_of(before, ESCAPE) + escapes,
            count_of(before, '\n') + breaks,
            code,
            glyph,
        ),
{
    let at = choose|at: int| #[trigger] stands_at(text, at, escapes, breaks, code, glyph);
    let all = before + text + after;
    let p = before.len() + at;
    assert(all.take(p) =~= before + text.take(at));
    lemma_count_of_parts(before, text.take(at), ESCAPE);
    lemma_count_of_parts(before, text.take(at), '\n');
    assert(all.subrange(p, p + code.len()) =~= text.subrange(at, at + code.len()));
    assert(all[p + code.len()] == text[at + code.len()]);
    assert(stands_at(
        all,
        p,
        count_of(before, ESCAPE) + escapes,
        count_of(before, '\n') + breaks,
        code,
        glyph,
    ));
}

/// A text of cells.
pub open spec fn cells_text(codes: Seq<Seq<char>>, glyphs: Seq<char>, n: nat) -> Seq<char>
    decreases n,
{
    if n == 0 {
        Seq::empty()
    } else {
        (cells_text(codes, glyphs, (n - 1) as nat) + codes[n - 1]).push(glyphs[n - 1])
    }
}

/// A cell of a text of cells stands after the escape sequences of the cells
/// before it.
pub proof fn lemma_cell_stands(codes: Seq<Seq<char>>, glyphs: Seq<char>, n: nat, x: int)
    requires
        0 <= x < n || x == 0 && n == 0,
        forall|i: int| 0 <= i < n ==> one_escape(#[trigger] codes[i]),
        forall|i: int| 0 <= i < n ==> #[trigger] glyphs[i] != ESCAPE && glyphs[i] != '\n',
    ensures
        x < n ==> stands(cells_text(codes, glyphs, n), x, 0, codes[x], glyphs[x]),
        count_of(cells_text(codes, glyphs, n), ESCAPE) == n,
        count_of(cells_text(codes, glyphs, n), '\n') == 0,
    decreases n,
{
    if n > 0 {
        let k = (n - 1) as nat;
        let before = cells_text(codes, glyphs, k);
        let code = codes[k as int];
        let glyph = glyphs[k as int];
        let one = seq![glyph];
        lemma_cell_stands(
            codes,
            glyphs,
            k,
            if x < k {
                x
            } else if k > 0 {
                k - 1
            } else {
                0
            },
        );
        let all = cells_text(codes, glyphs, n);
        assert(all =~= before + code + one);
        assert(one_escape(code));
        lemma_count_code(code);
        lemma_count_one(glyph, ESCAPE);
        lemma_count_one(glyph, '\n');
        lemma_count_of_parts(before, code, ESCAPE);
        lemma_count_of_parts(before, code, '\n');
        lemma_count_of_parts(before + code, one, ESCAPE);
        lemma_count_of_parts(before + code, one, '\n');
        let none = Seq::<char>::empty();
        if x < k {
            lemma_stands_within(none, before, code + one, x, 0, codes[x], glyphs[x]);
            assert(none + before + (code + one) =~= all);
        } else {
            let at = before.len() as int;
            assert(all.take(at) =~= before);
            assert(all.subrange(at, at + code.len()) =~= code);
            assert(stands_at(all, at, x, 0, code, glyph));
        }
    }
}

/// Whether a text ends with an escape sequence: two texts that do, and are the
/// same, end with the same escape sequence.
pub proof fn lemma_last_codes_alike(a: Seq<char>, x: Seq<char>, b: Seq<char>, y: Seq<char>)
    requires
        one_escape(x),
        one_escape(y),
        a + x == b + y,
    ensures
        a == b,
        x == y,
{
    let s = a + x;
    let n = s.len();
    if x.len() < y.len() {
        assert(s[a.len() as int] == x[0]);
        assert((b + y)[a.len() as int] == y[a.len() - b.len()]);
    } else if y.len() < x.len() {
        assert((b + y)[b.len() as int] == y[0]);
        assert(s[b.len() as int] == x[b.len() - a.len()]);
    }
    assert(a =~= s.take(a.len() as int));
    assert(b =~= (b + y).take(b.len() as int));
    assert(x =~= s.skip(a.len() as int));
    assert(y =~= (b + y).skip(b.len() as int));
}

/// Texts of as many cells that are the same have the same escape sequences and
/// the same characters.
pub proof fn lemma_cells_tell_all(
    codes: Seq<Seq<char>>,
    glyphs: Seq<char>,
    codes2: Seq<Seq<char>>,
    glyphs2: Seq<char>,
    before: Seq<char>,
    before2: Seq<char>,
    n: nat,
)
    requires
        forall|i: int| 0 <= i < n ==> one_escape(#[trigger] codes[i]),
        forall|i: int| 0 <= i < n ==> one_escape(#[trigger] codes2[i]),
        before + cells_text(codes, glyphs, n) == before2 + cells_text(codes2, glyphs2, n),
    ensures
        forall|i: int| 0 <= i < n ==> #[trigger] codes[i] == codes2[i],
        forall|i: int| 0 <= i < n ==> #[trigger] glyphs[i] == glyphs2[i],
        before == before2,
    decreases n,
{
    if n == 0 {
        assert(before + cells_text(codes, glyphs, n) =~= before);
        assert(before2 + cells_text(codes2, glyphs2, n) =~= before2);
    } else {
        let k = (n - 1) as nat;
        let a = before + cells_text(codes, glyphs, k);
        let b = before2 + cells_text(codes2, glyphs2, k);
        let all = before + cells_text(codes, glyphs, n);
        let all2 = before2 + cells_text(codes2, glyphs2, n);
        assert(one_escape(codes[k as int]));
        assert(one_escape(codes2[k as int]));
        assert(all =~= (a + codes[k as int]).push(glyphs[k as int]));
        assert(all2 =~= (b + codes2[k as int]).push(glyphs2[k as int]));
        assert(all.last() == all2.last());
        assert(all.drop_last() =~= a + codes[k as int]);
        assert(all2.drop_last() =~= b + codes2[k as int]);
        lemma_last_codes_alike(a, codes[k as int], b, codes2[k as int]);
        lemma_cells_tell_all(codes, glyphs, codes2, glyphs2, before, before2, k);
    }
}

/// Whether the line of a number in a text, counted from 0, is the given one.
pub open spec fn line_is(text: Seq<char>, number: int, line: Seq<char>) -> bool {
    exists|at: int| #[trigger] line_is_at(text, at, number, line)
}

/// Whether a line starts at a place in a text.
pub open spec fn line_is_at(text: Seq<char>, at: int, number: int, line: Seq<char>) -> bool {
    &&& 0 <= at
    &&& at + line.len() <= text.len()
    &&& count_of(text.take(at), '\n') == number
    &&& at > 0 ==> text[at - 1] == '\n'
    &&& text.subrange(at, at + line.len()) == line
    &&& count_of(line, '\n') == 0
    &&& at + line.len() < text.len() ==> text[at + line.len()] == '\n'
}

/// A line between what ends with a line break and what begins with one.
pub proof fn lemma_line_between(before: Seq<char>, line: Seq<char>, after: Seq<char>)
    requires
        before.len() == 0 || before.last() == '\n',
        after.len() == 0 || after[0] == '\n',
        count_of(line, '\n') == 0,
    ensures
        line_is(before + line + after, count_of(before, '\n') as int, line),
{
    let text = before + line + after;
    let at = before.len() as int;
    assert(text.take(at) =~= before);
    assert(text.subrange(at, at + line.len()) =~= line);
    assert(line_is_at(text, at, count_of(before, '\n') as int, line));
}

} // verus!
