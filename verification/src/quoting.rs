//! POSIX shell quoting of one word, and what a shell reads back from it.
use vstd::prelude::*;
use crate::text::{chars_of, push_char};

verus! {

/// The body of a single-quoted word: each `'` becomes `'\''` (close the
/// quotes, an escaped quote, reopen the quotes); other characters stay.
pub open spec fn quote_escape(s: Seq<char>) -> Seq<char>
    decreases s.len(),
{
    if s.len() == 0 {
        s
    } else if s[0] == '\'' {
        seq!['\'', '\\', '\'', '\''] + quote_escape(s.drop_first())
    } else {
        seq![s[0]] + quote_escape(s.drop_first())
    }
}

/// `s` as one single-quoted POSIX shell word.
pub open spec fn posix_quoted(s: Seq<char>) -> Seq<char> {
    seq!['\''] + quote_escape(s) + seq!['\'']
}

/// Prepends `c` to the text that a successful read produced.
pub open spec fn prepend(c: char, read: Option<Seq<char>>) -> Option<Seq<char>> {
    match read {
        Some(r) => Some(seq![c] + r),
        None => None,
    }
}

/// What a POSIX shell makes of a word outside quotes, for the quoting forms
/// used here: `'` opens a single-quoted run, `\` takes the next character
/// literally, and any other character stands for itself.  `None` when the
/// word is malformed (an unterminated quote or a trailing backslash).
pub open spec fn shell_read_unquoted(w: Seq<char>) -> Option<Seq<char>>
    decreases w.len(), 1int,
{
    if w.len() == 0 {
        Some(Seq::empty())
    } else if w[0] == '\'' {
        shell_read_quoted(w.drop_first())
    } else if w[0] == '\\' {
        if w.len() >= 2 {
            prepend(w[1], shell_read_unquoted(w.skip(2)))
        } else {
            None
        }
    } else {
        prepend(w[0], shell_read_unquoted(w.drop_first()))
    }
}

/// What a POSIX shell makes of the rest of a word inside single quotes:
/// every character up to the closing `'` stands for itself.
pub open spec fn shell_read_quoted(w: Seq<char>) -> Option<Seq<char>>
    decreases w.len(), 0int,
{
    if w.len() == 0 {
        None
    } else if w[0] == '\'' {
        shell_read_unquoted(w.drop_first())
    } else {
        prepend(w[0], shell_read_quoted(w.drop_first()))
    }
}

/// Reading the escaped body of `v`, its closing quote and then `tail`
/// gives `v` followed by what `tail` reads as.
proof fn lemma_read_escaped(v: Seq<char>, tail: Seq<char>)
    ensures
        shell_read_quoted(quote_escape(v) + seq!['\''] + tail) == (match shell_read_unquoted(tail) {
            Some(r) => Some(v + r),
            None => None,
        }),
    decreases v.len(),
{
    let w = quote_escape(v) + seq!['\''] + tail;
    if v.len() == 0 {
        assert(w =~= seq!['\''] + tail);
        assert(w.drop_first() =~= tail);
        assert(shell_read_quoted(w) == shell_read_unquoted(tail));
        match shell_read_unquoted(tail) {
            Some(r) => assert(v + r =~= r),
            None => {},
        }
    } else {
        let rest = v.drop_first();
        lemma_read_escaped(rest, tail);
        let inner = quote_escape(rest) + seq!['\''] + tail;
        if v[0] == '\'' {
            assert(w =~= seq!['\''] + (seq!['\\', '\'', '\''] + inner));
            assert(w.drop_first() =~= seq!['\\', '\'', '\''] + inner);
            let u = w.drop_first();
            assert(u[0] == '\\');
            assert(u[1] == '\'');
            assert(u.skip(2) =~= seq!['\''] + inner);
            assert(u.skip(2).drop_first() =~= inner);
            assert(shell_read_unquoted(u.skip(2)) == shell_read_quoted(inner));
            assert(shell_read_unquoted(u) == prepend('\'', shell_read_quoted(inner)));
            assert(shell_read_quoted(w) == shell_read_unquoted(u));
            match shell_read_unquoted(tail) {
                Some(r) => assert(seq![v[0]] + (rest + r) =~= v + r),
                None => {},
            }
        } else {
            assert(w =~= seq![v[0]] + inner);
            assert(w.drop_first() =~= inner);
            assert(shell_read_quoted(w) == prepend(v[0], shell_read_quoted(inner)));
            match shell_read_unquoted(tail) {
                Some(r) => assert(seq![v[0]] + (rest + r) =~= v + r),
                None => {},
            }
        }
    }
}

/// A shell reads the quoted form of any text back as exactly that text.
pub proof fn lemma_posix_quote_round_trip(v: Seq<char>)
    ensures
        shell_read_unquoted(posix_quoted(v)) == Some(v),
{
    let w = posix_quoted(v);
    let empty = Seq::<char>::empty();
    lemma_read_escaped(v, empty);
    assert(w.drop_first() =~= quote_escape(v) + seq!['\''] + empty);
    assert(v + empty =~= v);
}

/// Appending one character's escape extends the escaped body.
proof fn lemma_escape_push(s: Seq<char>, c: char)
    ensures
        quote_escape(s.push(c)) == quote_escape(s) + (if c == '\'' {
            seq!['\'', '\\', '\'', '\'']
        } else {
            seq![c]
        }),
    decreases s.len(),
{
    let tail = if c == '\'' {
        seq!['\'', '\\', '\'', '\'']
    } else {
        seq![c]
    };
    if s.len() == 0 {
        assert(s.push(c) =~= seq![c]);
        assert(seq![c].drop_first() =~= Seq::<char>::empty());
        assert(quote_escape(Seq::<char>::empty()) =~= Seq::<char>::empty());
        assert(quote_escape(s.push(c)) =~= tail);
    } else {
        lemma_escape_push(s.drop_first(), c);
        assert(s.push(c).drop_first() =~= s.drop_first().push(c));
        if s[0] == '\'' {
            assert(quote_escape(s.push(c)) =~= seq!['\'', '\\', '\'', '\''] + (quote_escape(
                s.drop_first(),
            ) + tail));
        } else {
            assert(quote_escape(s.push(c)) =~= seq![s[0]] + (quote_escape(s.drop_first())
                + tail));
        }
    }
}

/// Quotes `value` as one POSIX shell word: wrapped in single quotes, with
/// each inner `'` written as `'\''`.
pub fn posix_quote(value: &str) -> (r: String)
    ensures
        r@ == posix_quoted(value@),
{
    let v = chars_of(value);
    let mut out = String::new();
    push_char(&mut out, '\'');
    let mut i: usize = 0;
    while i < v.len()
        invariant
            i <= v.len(),
            out@ == seq!['\''] + quote_escape(v@.take(i as int)),
        decreases v.len() - i,
    {
        let c = v[i];
        proof {
            lemma_escape_push(v@.take(i as int), c);
            assert(v@.take(i as int).push(c) =~= v@.take(i + 1));
        }
        if c == '\'' {
            push_char(&mut out, '\'');
            push_char(&mut out, '\\');
            push_char(&mut out, '\'');
            push_char(&mut out, '\'');
        } else {
            push_char(&mut out, c);
        }
        i += 1;
    }
    push_char(&mut out, '\'');
    assert(v@.take(v.len() as int) =~= v@);
    assert(out@ =~= posix_quoted(value@));
    out
}

} // verus!
