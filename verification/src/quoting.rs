//! Quoting of words for a POSIX shell.

use vstd::prelude::*;

use crate::text::chars;

verus! {

/// Whether a character stands for itself in a shell command.
pub open spec fn is_plain(c: char) -> bool {
    ||| 'a' <= c <= 'z'
    ||| 'A' <= c <= 'Z'
    ||| '0' <= c <= '9'
    ||| c == '_'
    ||| c == '-'
    ||| c == '.'
    ||| c == '/'
    ||| c == ':'
    ||| c == '@'
}

/// Whether a text needs no quoting.
pub open spec fn needs_no_quotes(s: Seq<char>) -> bool {
    forall|i: int| 0 <= i < s.len() ==> is_plain(#[trigger] s[i])
}

/// A text with every single quote written as `'"'"'`, to stand between single quotes.
pub open spec fn escaped(s: Seq<char>) -> Seq<char>
    decreases s.len(),
{
    if s.len() == 0 {
        Seq::empty()
    } else if s.last() == '\'' {
        escaped(s.drop_last()) + "'\"'\"'"@
    } else {
        escaped(s.drop_last()).push(s.last())
    }
}

/// A text as one word of a shell command.
pub open spec fn quoted(s: Seq<char>) -> Seq<char> {
    if s.len() == 0 {
        "''"@
    } else if needs_no_quotes(s) {
        s
    } else {
        "'"@ + escaped(s) + "'"@
    }
}

/// How the shell reads the next character of a word.
pub enum Quoting {
    /// Outside of quotes.
    Bare,
    /// Between single quotes.
    Single,
    /// Between double quotes.
    Double,
}

/// What the shell has read of a word.
pub struct Reading {
    pub mode: Quoting,
    pub word: Seq<char>,
}

/// What a POSIX shell reads from the text of a word. Only what quoting needs is covered: outside
/// of quotes the plain characters, between double quotes everything but `$`, `` ` ``, `\`.
pub open spec fn shell_reads(s: Seq<char>) -> Option<Reading>
    decreases s.len(),
{
    if s.len() == 0 {
        Some(Reading { mode: Quoting::Bare, word: Seq::empty() })
    } else {
        let c = s.last();
        match shell_reads(s.drop_last()) {
            None => None,
            Some(r) => match r.mode {
                Quoting::Bare => if c == '\'' {
                    Some(Reading { mode: Quoting::Single, word: r.word })
                } else if c == '"' {
                    Some(Reading { mode: Quoting::Double, word: r.word })
                } else if is_plain(c) {
                    Some(Reading { mode: Quoting::Bare, word: r.word.push(c) })
                } else {
                    None
                },
                Quoting::Single => if c == '\'' {
                    Some(Reading { mode: Quoting::Bare, word: r.word })
                } else {
                    Some(Reading { mode: Quoting::Single, word: r.word.push(c) })
                },
                Quoting::Double => if c == '"' {
                    Some(Reading { mode: Quoting::Bare, word: r.word })
                } else if c == '$' || c == '`' || c == '\\' {
                    None
                } else {
                    Some(Reading { mode: Quoting::Double, word: r.word.push(c) })
                },
            },
        }
    }
}

/// The word that the text of a complete word stands for.
pub open spec fn shell_word(s: Seq<char>) -> Option<Seq<char>> {
    match shell_reads(s) {
        Some(r) if r.mode is Bare => Some(r.word),
        _ => None,
    }
}

proof fn reads_next(s: Seq<char>, c: char)
    ensures
        shell_reads(s.push(c)) == match shell_reads(s) {
            None => None::<Reading>,
            Some(r) => match r.mode {
                Quoting::Bare => if c == '\'' {
                    Some(Reading { mode: Quoting::Single, word: r.word })
                } else if c == '"' {
                    Some(Reading { mode: Quoting::Double, word: r.word })
                } else if is_plain(c) {
                    Some(Reading { mode: Quoting::Bare, word: r.word.push(c) })
                } else {
                    None
                },
                Quoting::Single => if c == '\'' {
                    Some(Reading { mode: Quoting::Bare, word: r.word })
                } else {
                    Some(Reading { mode: Quoting::Single, word: r.word.push(c) })
                },
                Quoting::Double => if c == '"' {
                    Some(Reading { mode: Quoting::Bare, word: r.word })
                } else if c == '$' || c == '`' || c == '\\' {
                    None
                } else {
                    Some(Reading { mode: Quoting::Double, word: r.word.push(c) })
                },
            },
        },
{
    assert(s.push(c).drop_last() =~= s);
}

proof fn reads_escaped(s: Seq<char>)
    ensures
        shell_reads("'"@ + escaped(s)) == Some(Reading { mode: Quoting::Single, word: s }),
    decreases s.len(),
{
    reveal_strlit("'");
    let open = "'"@;
    if s.len() == 0 {
        assert(open + escaped(s) =~= Seq::<char>::empty().push('\''));
        reads_next(Seq::empty(), '\'');
        assert(s =~= Seq::<char>::empty());
    } else {
        let front = s.drop_last();
        reads_escaped(front);
        let before = open + escaped(front);
        if s.last() == '\'' {
            reveal_strlit("'\"'\"'");
            let a = before.push('\'');
            let b = a.push('"');
            let c = b.push('\'');
            let d = c.push('"');
            let e = d.push('\'');
            assert(open + escaped(s) =~= e);
            reads_next(before, '\'');
            reads_next(a, '"');
            reads_next(b, '\'');
            reads_next(c, '"');
            reads_next(d, '\'');
        } else {
            assert(open + escaped(s) =~= before.push(s.last()));
            reads_next(before, s.last());
        }
        assert(front.push(s.last()) =~= s);
    }
}

proof fn reads_plain(s: Seq<char>)
    requires
        needs_no_quotes(s),
    ensures
        shell_reads(s) == Some(Reading { mode: Quoting::Bare, word: s }),
    decreases s.len(),
{
    if s.len() == 0 {
        assert(s =~= Seq::<char>::empty());
    } else {
        let front = s.drop_last();
        assert(needs_no_quotes(front)) by {
            assert forall|i: int| 0 <= i < front.len() implies is_plain(#[trigger] front[i]) by {
                assert(front[i] == s[i]);
            }
        }
        reads_plain(front);
        assert(is_plain(s[s.len() - 1]));
        reads_next(front, s.last());
        assert(front.push(s.last()) =~= s);
    }
}

/// An escaped text between single quotes is read back by the shell as the text itself.
pub proof fn escaping_is_read_back(s: Seq<char>)
    ensures
        shell_word("'"@ + escaped(s) + "'"@) == Some(s),
{
    reveal_strlit("'");
    reads_escaped(s);
    let before = "'"@ + escaped(s);
    assert(before + "'"@ =~= before.push('\''));
    reads_next(before, '\'');
}

/// A quoted text is read back by the shell as the text itself.
pub proof fn quoting_is_read_back(s: Seq<char>)
    ensures
        shell_word(quoted(s)) == Some(s),
{
    if s.len() == 0 {
        reveal_strlit("''");
        let one = Seq::<char>::empty().push('\'');
        assert("''"@ =~= one.push('\''));
        reads_next(Seq::empty(), '\'');
        reads_next(one, '\'');
        assert(s =~= Seq::<char>::empty());
    } else if needs_no_quotes(s) {
        reads_plain(s);
    } else {
        escaping_is_read_back(s);
    }
}

fn is_plain_char(c: char) -> (r: bool)
    ensures
        r == is_plain(c),
{
    ('a' <= c && c <= 'z') || ('A' <= c && c <= 'Z') || ('0' <= c && c <= '9') || c == '_' || c
        == '-' || c == '.' || c == '/' || c == ':' || c == '@'
}

/// Writes every single quote as `'"'"'`, so that the text can stand between single quotes.
pub fn escape_single_quotes(s: &str) -> (r: String)
    ensures
        r@ == escaped(s@),
{
    let x = chars(s);
    let mut out = String::new();
    let mut i: usize = 0;
    while i < x.len()
        invariant
            i <= x.len(),
            x@ == s@,
            out@ == escaped(s@.take(i as int)),
        decreases x.len() - i,
    {
        assert(s@.take(i + 1).drop_last() =~= s@.take(i as int));
        assert(s@.take(i + 1).last() == s@[i as int]);
        if x[i] == '\'' {
            out.append("'\"'\"'");
        } else {
            out.push(x[i]);
        }
        i += 1;
    }
    assert(s@.take(i as int) =~= s@);
    out
}

/// Writes a text as one word of a shell command.
pub fn quote(s: &str) -> (r: String)
    ensures
        r@ == quoted(s@),
{
    if s.is_empty() {
        return "''".to_owned();
    }
    let x = chars(s);
    let mut i: usize = 0;
    while i < x.len()
        invariant
            i <= x.len(),
            x@ == s@,
            s@.len() > 0,
            forall|j: int| 0 <= j < i ==> is_plain(#[trigger] s@[j]),
        decreases x.len() - i,
    {
        if !is_plain_char(x[i]) {
            assert(!is_plain(s@[i as int]));
            return "'".to_owned().concat(escape_single_quotes(s).as_str()).concat("'");
        }
        i += 1;
    }
    s.to_owned()
}

} // verus!
