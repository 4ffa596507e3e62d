//! Text that is safe to show on a terminal.
use vstd::prelude::*;
use crate::text;

verus! {

/// A control character.
pub open spec fn is_control(c: char) -> bool {
    ('\u{0}' <= c <= '\u{1f}') || ('\u{7f}' <= c <= '\u{9f}')
}

/// A number below 256 in lower-case hexadecimal, without leading zeros.
pub open spec fn short_hex(n: int) -> Seq<char> {
    if n < 16 {
        seq![crate::digest::hex_digit(n)]
    } else {
        seq![crate::digest::hex_digit(n / 16), crate::digest::hex_digit(n % 16)]
    }
}

/// What stands for a character: itself, or its escape where it is a control
/// character.
pub open spec fn visible(c: char) -> Seq<char> {
    if c == '\n' {
        "\\n"@
    } else if c == '\r' {
        "\\r"@
    } else if c == '\t' {
        "\\t"@
    } else if is_control(c) {
        "\\u{"@ + short_hex(c as int) + "}"@
    } else {
        seq![c]
    }
}

/// The text with every control character escaped.
pub open spec fn cleaned(s: Seq<char>) -> Seq<char>
    decreases s.len(),
{
    if s.len() == 0 {
        Seq::empty()
    } else {
        cleaned(s.drop_last()) + visible(s.last())
    }
}

proof fn visible_is_clean(c: char)
    ensures
        forall|i: int| 0 <= i < visible(c).len() ==> !is_control(#[trigger] visible(c)[i]),
{
    reveal_strlit("\\n");
    reveal_strlit("\\r");
    reveal_strlit("\\t");
    reveal_strlit("\\u{");
    reveal_strlit("}");
}

/// No control character is left in a cleaned text.
pub proof fn no_control_is_left(s: Seq<char>)
    ensures
        forall|i: int| 0 <= i < cleaned(s).len() ==> !is_control(#[trigger] cleaned(s)[i]),
    decreases s.len(),
{
    if s.len() > 0 {
        no_control_is_left(s.drop_last());
        visible_is_clean(s.last());
        let a = cleaned(s.drop_last());
        let b = visible(s.last());
        assert forall|i: int| 0 <= i < cleaned(s).len() implies !is_control(
            #[trigger] cleaned(s)[i],
        ) by {
            if i < a.len() {
                assert(cleaned(s)[i] == a[i]);
            } else {
                assert(cleaned(s)[i] == b[i - a.len()]);
            }
        }
    }
}

/// A text without control characters stays as it is.
pub proof fn clean_text_stays(s: Seq<char>)
    requires
        forall|i: int| 0 <= i < s.len() ==> !is_control(#[trigger] s[i]),
    ensures
        cleaned(s) == s,
    decreases s.len(),
{
    if s.len() > 0 {
        clean_text_stays(s.drop_last());
        assert(!is_control(s[s.len() - 1]));
        assert(cleaned(s) =~= s);
    } else {
        assert(cleaned(s) =~= s);
    }
}

/// The text with every control character escaped.
pub fn terminal_text(s: &str) -> (r: String)
    ensures
        r@ == cleaned(s@),
{
    let c = text::chars(s);
    let mut r: String = String::new();
    let mut i: usize = 0;
    assert(c@.take(0) =~= Seq::<char>::empty());
    while i < c.len()
        invariant
            i <= c.len(),
            c@ == s@,
            r@ == cleaned(s@.take(i as int)),
        decreases c.len() - i,
    {
        let x = c[i];
        let ghost before = r@;
        proof {
            assert(s@.take(i + 1).drop_last() =~= s@.take(i as int));
            assert(s@.take(i + 1).last() == x);
        }
        if x == '\n' {
            r.append("\\n");
        } else if x == '\r' {
            r.append("\\r");
        } else if x == '\t' {
            r.append("\\t");
        } else if (x >= '\u{0}' && x <= '\u{1f}') || (x >= '\u{7f}' && x <= '\u{9f}') {
            let n: u64 = x as u64;
            r.append("\\u{");
            if n >= 16 {
                r.push(crate::digest::hex_char((n / 16) as u8));
                r.push(crate::digest::hex_char((n % 16) as u8));
                assert(r@ =~= before + "\\u{"@ + short_hex(x as int));
            } else {
                r.push(crate::digest::hex_char(n as u8));
                assert(r@ =~= before + "\\u{"@ + short_hex(x as int));
            }
            r.append("}");
            assert(r@ =~= before + visible(x));
        } else {
            r.push(x);
        }
        assert(r@ =~= before + visible(x));
        i += 1;
    }
    assert(s@.take(i as int) =~= s@);
    r
}

/// Cleaning goes character by character.
pub proof fn cleaning_joins(a: Seq<char>, b: Seq<char>)
    ensures
        cleaned(a + b) == cleaned(a) + cleaned(b),
    decreases b.len(),
{
    if b.len() == 0 {
        assert(a + b =~= a);
        assert(cleaned(a) + cleaned(b) =~= cleaned(a));
    } else {
        assert((a + b).drop_last() =~= a + b.drop_last());
        cleaning_joins(a, b.drop_last());
        assert(cleaned(a + b) =~= cleaned(a) + cleaned(b));
    }
}

/// A line feed, a return and a tab stand by their letters behind a backslash,
/// each other control character by its number, and all else by itself.
pub proof fn what_stands_for_a_character(c: char)
    ensures
        visible('\n') == seq!['\\', 'n'],
        visible('\r') == seq!['\\', 'r'],
        visible('\t') == seq!['\\', 't'],
        !is_control(c) ==> visible(c) == seq![c],
        is_control(c) && c != '\n' && c != '\r' && c != '\t' ==> visible(c).len() >= 5 && visible(
            c,
        ).take(3) == seq!['\\', 'u', '{'] && visible(c).last() == '}',
        is_control('\u{1b}') && is_control('\u{7f}') && is_control('\u{0}') && !is_control(' '),
{
    reveal_strlit("\\n");
    reveal_strlit("\\r");
    reveal_strlit("\\t");
    reveal_strlit("\\u{");
    reveal_strlit("}");
    assert(visible('\n') =~= seq!['\\', 'n']);
    assert(visible('\r') =~= seq!['\\', 'r']);
    assert(visible('\t') =~= seq!['\\', 't']);
    if is_control(c) && c != '\n' && c != '\r' && c != '\t' {
        assert(visible(c).take(3) =~= seq!['\\', 'u', '{']);
    }
}

} // verus!
