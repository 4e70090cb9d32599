//! Numerals and escape sequences tell what they were made of.
use vstd::prelude::*;

use crate::color::{table_code, true_color_code};
use crate::export::ESCAPE;
use crate::frame::Rgb;
use crate::text::{decimal, decimal_string};

verus! {

/// The number that a text of decimal digits stands for.
pub open spec fn value_of(digits: Seq<char>) -> int
    decreases digits.len(),
{
    if digits.len() == 0 {
        0
    } else {
        10 * value_of(digits.drop_last()) + (digits.last() as int - '0' as int)
    }
}

/// Whether a text holds decimal digits only.
pub open spec fn all_digits(text: Seq<char>) -> bool {
    forall|i: int| 0 <= i < text.len() ==> '0' <= #[trigger] text[i] <= '9'
}

/// A numeral holds digits only, has no zero before them, and stands for the
/// number.
pub proof fn lemma_numeral_stands_for_number(n: nat)
    ensures
        decimal(n).len() > 0,
        all_digits(decimal(n)),
        n > 0 ==> decimal(n)[0] != '0',
        n == 0 ==> decimal(n).len() == 1,
        value_of(decimal(n)) == n,
    decreases n,
{
    if n < 10 {
        assert(decimal(n).drop_last() =~= Seq::<char>::empty());
        assert(value_of(Seq::<char>::empty()) == 0);
    } else {
        lemma_numeral_stands_for_number(n / 10);
        assert(decimal(n).drop_last() =~= decimal(n / 10));
    }
}

/// The numeral that is written of a number reads as that number.
pub proof fn lemma_written_number_reads_back(n: u64, r: String)
    requires
        call_ensures(decimal_string, (n,), r),
    ensures
        all_digits(r@),
        value_of(r@) == n,
        n > 0 ==> r@[0] != '0',
{
    lemma_numeral_stands_for_number(n as nat);
}

/// Different numbers have different numerals.
pub proof fn lemma_numerals_differ(a: nat, b: nat)
    requires
        decimal(a) == decimal(b),
    ensures
        a == b,
{
    lemma_numeral_stands_for_number(a);
    lemma_numeral_stands_for_number(b);
}

/// Where two texts each are digits and then something that starts otherwise,
/// the digits are the same and so is the rest.
pub proof fn lemma_digits_end_alike(a: Seq<char>, x: Seq<char>, b: Seq<char>, y: Seq<char>)
    requires
        all_digits(a),
        all_digits(b),
        x.len() > 0,
        y.len() > 0,
        !('0' <= x[0] <= '9'),
        !('0' <= y[0] <= '9'),
        a + x == b + y,
    ensures
        a == b,
        x == y,
{
    let s = a + x;
    if a.len() < b.len() {
        assert(s[a.len() as int] == x[0]);
        assert((b + y)[a.len() as int] == b[a.len() as int]);
    } else if b.len() < a.len() {
        assert((b + y)[b.len() as int] == y[0]);
        assert(s[b.len() as int] == a[b.len() as int]);
    }
    assert(a =~= s.take(a.len() as int));
    assert(b =~= (b + y).take(b.len() as int));
    assert(x =~= s.skip(a.len() as int));
    assert(y =~= (b + y).skip(b.len() as int));
}

/// Where two texts begin with equally long texts, they are the same and so is
/// the rest.
pub proof fn lemma_heads_alike(a: Seq<char>, x: Seq<char>, b: Seq<char>, y: Seq<char>)
    requires
        a.len() == b.len(),
        a + x == b + y,
    ensures
        a == b,
        x == y,
{
    assert(a =~= (a + x).take(a.len() as int));
    assert(b =~= (b + y).take(b.len() as int));
    assert(x =~= (a + x).skip(a.len() as int));
    assert(y =~= (b + y).skip(b.len() as int));
}

/// Eight parts of a text, joined from either side.
proof fn lemma_eight_parts(
    a: Seq<char>,
    b: Seq<char>,
    c: Seq<char>,
    d: Seq<char>,
    e: Seq<char>,
    f: Seq<char>,
    g: Seq<char>,
    h: Seq<char>,
)
    ensures
        a + b + c + d + e + f + g + h == a + (b + (c + (d + (e + (f + (g + h)))))),
{
    let r1 = f + (g + h);
    assert(a + b + c + d + e + f + g + h =~= a + b + c + d + e + r1);
    let r2 = d + (e + r1);
    assert(a + b + c + d + e + r1 =~= a + b + c + r2);
    assert(a + b + c + r2 =~= a + (b + (c + r2)));
}

/// The escape sequence of a colour tells the colour, whatever follows it.
pub proof fn lemma_color_code_tells_color(a: Rgb, x: Seq<char>, b: Rgb, y: Seq<char>)
    requires
        true_color_code(a) + x == true_color_code(b) + y,
    ensures
        a == b,
        x == y,
{
    reveal_strlit("\x1b[38;2;");
    reveal_strlit(";");
    reveal_strlit("m");
    lemma_numeral_stands_for_number(a.0 as nat);
    lemma_numeral_stands_for_number(a.1 as nat);
    lemma_numeral_stands_for_number(a.2 as nat);
    lemma_numeral_stands_for_number(b.0 as nat);
    lemma_numeral_stands_for_number(b.1 as nat);
    lemma_numeral_stands_for_number(b.2 as nat);
    let a4 = "m"@ + x;
    let b4 = "m"@ + y;
    let a3 = ";"@ + (decimal(a.2 as nat) + a4);
    let b3 = ";"@ + (decimal(b.2 as nat) + b4);
    let a2 = ";"@ + (decimal(a.1 as nat) + a3);
    let b2 = ";"@ + (decimal(b.1 as nat) + b3);
    lemma_eight_parts(
        "\x1b[38;2;"@,
        decimal(a.0 as nat),
        ";"@,
        decimal(a.1 as nat),
        ";"@,
        decimal(a.2 as nat),
        "m"@,
        x,
    );
    lemma_eight_parts(
        "\x1b[38;2;"@,
        decimal(b.0 as nat),
        ";"@,
        decimal(b.1 as nat),
        ";"@,
        decimal(b.2 as nat),
        "m"@,
        y,
    );
    lemma_heads_alike(
        "\x1b[38;2;"@,
        decimal(a.0 as nat) + a2,
        "\x1b[38;2;"@,
        decimal(b.0 as nat) + b2,
    );
    lemma_digits_end_alike(decimal(a.0 as nat), a2, decimal(b.0 as nat), b2);
    lemma_heads_alike(";"@, decimal(a.1 as nat) + a3, ";"@, decimal(b.1 as nat) + b3);
    lemma_digits_end_alike(decimal(a.1 as nat), a3, decimal(b.1 as nat), b3);
    lemma_heads_alike(";"@, decimal(a.2 as nat) + a4, ";"@, decimal(b.2 as nat) + b4);
    lemma_digits_end_alike(decimal(a.2 as nat), a4, decimal(b.2 as nat), b4);
    lemma_heads_alike("m"@, x, "m"@, y);
}

/// The escape sequence of a colour, letter by letter: after `ESC [ 3 8 ; 2 ;`
/// the numerals of red, green and blue, in this order, and `m` at the end.
pub proof fn lemma_color_code_is_spelled(c: Rgb)
    ensures
        ({
            let code = true_color_code(c);
            let i = 7 + decimal(c.0 as nat).len() as int;
            let j = i + 1 + decimal(c.1 as nat).len() as int;
            &&& 7 < i < j - 1 < j < code.len() - 2
            &&& code.take(7) == seq!['\x1b', '[', '3', '8', ';', '2', ';']
            &&& all_digits(code.subrange(7, i))
            &&& value_of(code.subrange(7, i)) == c.0
            &&& code[i] == ';'
            &&& all_digits(code.subrange(i + 1, j))
            &&& value_of(code.subrange(i + 1, j)) == c.1
            &&& code[j] == ';'
            &&& all_digits(code.subrange(j + 1, code.len() - 1))
            &&& value_of(code.subrange(j + 1, code.len() - 1)) == c.2
            &&& code.last() == 'm'
        }),
{
    reveal_strlit("\x1b[38;2;");
    reveal_strlit(";");
    reveal_strlit("m");
    lemma_numeral_stands_for_number(c.0 as nat);
    lemma_numeral_stands_for_number(c.1 as nat);
    lemma_numeral_stands_for_number(c.2 as nat);
    let code = true_color_code(c);
    let i = 7 + decimal(c.0 as nat).len() as int;
    let j = i + 1 + decimal(c.1 as nat).len() as int;
    assert(code.take(7) =~= seq!['\x1b', '[', '3', '8', ';', '2', ';']);
    assert(code.subrange(7, i) =~= decimal(c.0 as nat));
    assert(code.subrange(i + 1, j) =~= decimal(c.1 as nat));
    assert(code.subrange(j + 1, code.len() - 1) =~= decimal(c.2 as nat));
}

/// The escape sequence of a table colour, letter by letter.
pub proof fn lemma_table_code_is_spelled(index: nat)
    ensures
        ({
            let code = table_code(index);
            &&& code.len() > 8
            &&& code.take(7) == seq!['\x1b', '[', '3', '8', ';', '5', ';']
            &&& all_digits(code.subrange(7, code.len() - 1))
            &&& value_of(code.subrange(7, code.len() - 1)) == index
            &&& code.last() == 'm'
        }),
{
    reveal_strlit("\x1b[38;5;");
    reveal_strlit("m");
    lemma_numeral_stands_for_number(index);
    let code = table_code(index);
    assert(code.take(7) =~= seq!['\x1b', '[', '3', '8', ';', '5', ';']);
    assert(code.subrange(7, code.len() - 1) =~= decimal(index));
}

/// An escape sequence starts with its escape character and holds no other.
pub open spec fn one_escape(code: Seq<char>) -> bool {
    &&& code.len() > 0
    &&& code[0] == ESCAPE
    &&& forall|i: int| 0 < i < code.len() ==> #[trigger] code[i] != ESCAPE && code[i] != '\n'
}

/// The escape sequence of a colour holds one escape character.
pub proof fn lemma_color_code_has_one_escape(c: Rgb)
    ensures
        one_escape(true_color_code(c)),
{
    lemma_color_code_is_spelled(c);
    let code = true_color_code(c);
    let i = 7 + decimal(c.0 as nat).len() as int;
    let j = i + 1 + decimal(c.1 as nat).len() as int;
    assert forall|k: int| 0 < k < code.len() implies #[trigger] code[k] != ESCAPE && code[k]
        != '\n' by {
        if k < 7 {
            assert(code[k] == code.take(7)[k]);
        } else if k < i {
            assert(code[k] == code.subrange(7, i)[k - 7]);
        } else if i < k < j {
            assert(code[k] == code.subrange(i + 1, j)[k - i - 1]);
        } else if j < k < code.len() - 1 {
            assert(code[k] == code.subrange(j + 1, code.len() - 1)[k - j - 1]);
        }
    }
}

/// The escape sequence of a table colour holds one escape character.
pub proof fn lemma_table_code_has_one_escape(index: nat)
    ensures
        one_escape(table_code(index)),
{
    lemma_table_code_is_spelled(index);
    let code = table_code(index);
    assert forall|i: int| 0 < i < code.len() implies #[trigger] code[i] != ESCAPE && code[i]
        != '\n' by {
        if i < 7 {
            assert(code[i] == code.take(7)[i]);
        } else if i < code.len() - 1 {
            assert(code[i] == code.subrange(7, code.len() - 1)[i - 7]);
        }
    }
}

} // verus!
