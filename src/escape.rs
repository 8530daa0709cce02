//! The escaped form of a text, as `char::escape_default` writes each
//! character, together with the positions between two escapes.
use vstd::prelude::*;
use crate::text::is_ws;

verus! {

/// The lower-case hexadecimal digit of `d < 16`.
pub open spec fn hex_digit(d: nat) -> char {
    seq!['0', '1', '2', '3', '4', '5', '6', '7', '8', '9', 'a', 'b', 'c', 'd', 'e', 'f'][d as int]
}

/// `n` in lower-case hexadecimal, without leading zeros.
pub open spec fn hex_digits(n: nat) -> Seq<char>
    decreases n,
{
    if n < 16 {
        seq![hex_digit(n)]
    } else {
        hex_digits(n / 16).push(hex_digit(n % 16))
    }
}

/// One character escaped: tab, carriage return and line feed as `\t`, `\r`,
/// `\n`; a single quote, a double quote and a backslash behind a backslash;
/// the rest of 0x20 to 0x7e as it is; any other character as `\u{..}`.
pub open spec fn escape_char(c: char) -> Seq<char> {
    if c == '\t' {
        seq!['\\', 't']
    } else if c == '\r' {
        seq!['\\', 'r']
    } else if c == '\n' {
        seq!['\\', 'n']
    } else if c == '\'' || c == '"' || c == '\\' {
        seq!['\\', c]
    } else if 0x20 <= c as u32 && c as u32 <= 0x7e {
        seq![c]
    } else {
        seq!['\\', 'u', '{'] + hex_digits(c as u32 as nat) + seq!['}']
    }
}

/// Each character of `s` escaped, in order.
pub open spec fn escape_text(s: Seq<char>) -> Seq<char>
    decreases s.len(),
{
    if s.len() == 0 {
        Seq::empty()
    } else {
        escape_text(s.drop_last()) + escape_char(s.last())
    }
}

/// For each position of `escape_text(s)`, its end included, whether it lies
/// between two escapes (or at either end).
pub open spec fn escape_bounds(s: Seq<char>) -> Seq<bool>
    decreases s.len(),
{
    if s.len() == 0 {
        seq![true]
    } else {
        escape_bounds(s.drop_last()) + Seq::new((escape_char(s.last()).len() - 1) as nat, |_i: int| false)
            + seq![true]
    }
}

fn hex_digit_exec(d: u32) -> (r: char)
    requires
        d < 16,
    ensures
        r == hex_digit(d as nat),
{
    let digits: [char; 16] = ['0', '1', '2', '3', '4', '5', '6', '7', '8', '9', 'a', 'b', 'c', 'd', 'e', 'f'];
    assert(digits@ =~= seq!['0', '1', '2', '3', '4', '5', '6', '7', '8', '9', 'a', 'b', 'c', 'd', 'e', 'f']);
    digits[d as usize]
}

fn push_hex(out: &mut Vec<char>, n: u32)
    ensures
        final(out)@ == old(out)@ + hex_digits(n as nat),
    decreases n,
{
    if n >= 16 {
        push_hex(out, n / 16);
    }
    out.push(hex_digit_exec(n % 16));
    assert(final(out)@ =~= old(out)@ + hex_digits(n as nat));
}

fn push_escaped(out: &mut Vec<char>, c: char)
    ensures
        final(out)@ == old(out)@ + escape_char(c),
{
    let u = c as u32;
    if c == '\t' {
        out.push('\\');
        out.push('t');
    } else if c == '\r' {
        out.push('\\');
        out.push('r');
    } else if c == '\n' {
        out.push('\\');
        out.push('n');
    } else if c == '\'' || c == '"' || c == '\\' {
        out.push('\\');
        out.push(c);
    } else if 0x20 <= u && u <= 0x7e {
        out.push(c);
    } else {
        out.push('\\');
        out.push('u');
        out.push('{');
        push_hex(out, u);
        out.push('}');
    }
    assert(final(out)@ =~= old(out)@ + escape_char(c));
}

proof fn lemma_hex_digits_len(n: nat)
    ensures
        1 <= hex_digits(n).len(),
    decreases n,
{
    if n >= 16 {
        lemma_hex_digits_len(n / 16);
    }
}

proof fn lemma_escape_char_len(c: char)
    ensures
        1 <= escape_char(c).len(),
{
    lemma_hex_digits_len(c as u32 as nat);
}

proof fn lemma_escape_lens(s: Seq<char>)
    ensures
        escape_bounds(s).len() == escape_text(s).len() + 1,
    decreases s.len(),
{
    if s.len() > 0 {
        lemma_escape_lens(s.drop_last());
        lemma_escape_char_len(s.last());
    }
}

/// The escaped form of `s` and, for each of its positions, whether an escape
/// starts or ends there.
pub fn escape_default(s: &Vec<char>) -> (r: (Vec<char>, Vec<bool>))
    ensures
        r.0@ == escape_text(s@),
        r.1@ == escape_bounds(s@),
        r.1@.len() == r.0@.len() + 1,
{
    let mut out: Vec<char> = Vec::new();
    let mut bounds: Vec<bool> = Vec::new();
    bounds.push(true);
    let mut i: usize = 0;
    assert(s@.take(0) =~= Seq::<char>::empty());
    assert(bounds@ =~= seq![true]);
    while i < s.len()
        invariant
            i <= s.len(),
            out@ == escape_text(s@.take(i as int)),
            bounds@ == escape_bounds(s@.take(i as int)),
        decreases s.len() - i,
    {
        let c = s[i];
        assert(s@.take(i + 1).drop_last() =~= s@.take(i as int));
        assert(s@.take(i + 1).last() == c);
        let before = out.len();
        push_escaped(&mut out, c);
        proof {
            lemma_escape_char_len(c);
        }
        let added = out.len() - before;
        let ghost b0 = bounds@;
        let mut k: usize = 1;
        while k < added
            invariant
                1 <= k <= added,
                added == escape_char(c).len(),
                bounds@ == b0 + Seq::new((k - 1) as nat, |_i: int| false),
            decreases added - k,
        {
            bounds.push(false);
            k = k + 1;
            assert(bounds@ =~= b0 + Seq::new((k - 1) as nat, |_i: int| false));
        }
        bounds.push(true);
        assert(bounds@ =~= escape_bounds(s@.take(i + 1)));
        i = i + 1;
    }
    assert(s@.take(i as int) =~= s@);
    proof {
        lemma_escape_lens(s@);
    }
    (out, bounds)
}

} // verus!
