//! Commands as lines for a shell.

use vstd::prelude::*;

use crate::text::{
    cat3, chars_of, join, joined, law_join_in_parts, law_join_of_one, lemma_texts_push, texts,
};

verus! {

// ── Reading ──────────────────────────────────────────────────────────────

/// The characters that stand for themselves wherever they are in a word.
pub open spec fn is_plain(c: char) -> bool {
    let n = c as u32;
    ||| 97 <= n <= 122
    ||| 65 <= n <= 90
    ||| 48 <= n <= 57
    ||| c == '_' || c == '-' || c == '.' || c == '/' || c == ':' || c == ',' || c == '+' || c == '@'
}

/// A word that has been read so far, with one more character.
pub open spec fn grown(word: Option<Seq<char>>, c: char) -> Option<Seq<char>> {
    match word {
        Some(w) => Some(w.push(c)),
        None => Some(seq![c]),
    }
}

/// What a shell reads in the rest of a line: behind the words of `done`, in a
/// word of which `word` has been read, if in any, and within single quotes or not.
///
/// A space ends a word. Within single quotes every character stands for
/// itself. Behind a backslash so does any other than the end of the line. A
/// line with any other character that has a meaning of its own is not read.
pub open spec fn read_rest(
    rest: Seq<char>,
    in_quotes: bool,
    word: Option<Seq<char>>,
    done: Seq<Seq<char>>,
) -> Option<Seq<Seq<char>>>
    decreases rest.len(),
{
    if rest.len() == 0 {
        if in_quotes {
            None
        } else {
            match word {
                Some(w) => Some(done.push(w)),
                None => Some(done),
            }
        }
    } else {
        let c = rest[0];
        let next = rest.drop_first();
        if in_quotes {
            if c == '\'' {
                read_rest(next, false, word, done)
            } else {
                read_rest(next, true, grown(word, c), done)
            }
        } else if c == ' ' {
            match word {
                Some(w) => read_rest(next, false, None, done.push(w)),
                None => read_rest(next, false, None, done),
            }
        } else if c == '\'' {
            let begun = match word {
                Some(w) => w,
                None => Seq::empty(),
            };
            read_rest(next, true, Some(begun), done)
        } else if c == '\\' {
            if next.len() == 0 || next[0] == '\n' {
                None
            } else {
                read_rest(next.drop_first(), false, grown(word, next[0]), done)
            }
        } else if is_plain(c) {
            read_rest(next, false, grown(word, c), done)
        } else {
            None
        }
    }
}

/// The words that a shell reads in a line.
pub open spec fn shell_words(line: Seq<char>) -> Option<Seq<Seq<char>>> {
    read_rest(line, false, None, Seq::empty())
}

// ── Writing ──────────────────────────────────────────────────────────────

/// Whether a word can stand as it is.
pub open spec fn is_plain_word(w: Seq<char>) -> bool {
    w.len() > 0 && forall|i: int| 0 <= i < w.len() ==> is_plain(#[trigger] w[i])
}

/// What stands for a character within single quotes. A quote ends them,
/// stands behind a backslash, and begins them again.
pub open spec fn quoted_char(c: char) -> Seq<char> {
    if c == '\'' {
        seq!['\'', '\\', '\'', '\'']
    } else {
        seq![c]
    }
}

/// What stands for a text within single quotes.
pub open spec fn quoted_chars(s: Seq<char>) -> Seq<char>
    decreases s.len(),
{
    if s.len() == 0 {
        Seq::empty()
    } else {
        quoted_chars(s.drop_last()) + quoted_char(s.last())
    }
}

/// A word in single quotes.
pub open spec fn in_single_quotes(w: Seq<char>) -> Seq<char> {
    "'"@ + quoted_chars(w) + "'"@
}

/// An argument as it is printed: in quotes where it needs them.
pub open spec fn quoted(arg: Seq<char>) -> Seq<char> {
    if is_plain_word(arg) {
        arg
    } else {
        in_single_quotes(arg)
    }
}

/// A program as it is printed: in quotes also where it holds no slash, as a
/// bare name might have a meaning of its own.
pub open spec fn quoted_program(program: Seq<char>) -> Seq<char> {
    if is_plain_word(program) && program.contains('/') {
        program
    } else {
        in_single_quotes(program)
    }
}

/// A command as it is printed.
pub open spec fn printed(program: Seq<char>, args: Seq<Seq<char>>) -> Seq<char> {
    joined(
        seq![quoted_program(program)] + Seq::new(args.len(), |i: int| quoted(args[i])),
        " "@,
    )
}

fn plain(c: char) -> (r: bool)
    ensures
        r == is_plain(c),
{
    let n: u32 = c as u32;
    (97 <= n && n <= 122) || (65 <= n && n <= 90) || (48 <= n && n <= 57) || c == '_' || c == '-'
        || c == '.' || c == '/' || c == ':' || c == ',' || c == '+' || c == '@'
}

/// Whether a word can stand as it is, and whether it holds a slash.
fn look_at_word(w: &str) -> (r: (bool, bool))
    ensures
        r.0 == is_plain_word(w@),
        r.1 == w@.contains('/'),
{
    let cs = chars_of(w);
    let mut all_plain = cs.len() > 0;
    let mut slash = false;
    let mut i: usize = 0;
    while i < cs.len()
        invariant
            cs@ == w@,
            i <= cs.len(),
            all_plain == (cs.len() > 0 && forall|j: int| 0 <= j < i ==> is_plain(#[trigger] cs@[j])),
            slash == exists|j: int| 0 <= j < i && #[trigger] cs@[j] == '/',
        decreases cs.len() - i,
    {
        if !plain(cs[i]) {
            all_plain = false;
        }
        if cs[i] == '/' {
            slash = true;
        }
        i += 1;
    }
    (all_plain, slash)
}

fn quote(w: &str) -> (r: String)
    ensures
        r@ == in_single_quotes(w@),
{
    let cs = chars_of(w);
    let mut body = String::new();
    let mut i: usize = 0;
    while i < cs.len()
        invariant
            cs@ == w@,
            i <= cs.len(),
            body@ == quoted_chars(cs@.take(i as int)),
        decreases cs.len() - i,
    {
        let c = cs[i];
        proof {
            assert(cs@.take(i + 1).drop_last() =~= cs@.take(i as int));
            assert(cs@.take(i + 1).last() == c);
        }
        let ghost before = body@;
        if c == '\'' {
            body.push('\'');
            body.push('\\');
            body.push('\'');
            body.push('\'');
        } else {
            body.push(c);
        }
        assert(body@ =~= before + quoted_char(c));
        i += 1;
    }
    assert(cs@.take(i as int) =~= cs@);
    cat3("'", body.as_str(), "'")
}

fn show_arg(arg: &str) -> (r: String)
    ensures
        r@ == quoted(arg@),
{
    let (all_plain, _) = look_at_word(arg);
    if all_plain {
        arg.to_owned()
    } else {
        quote(arg)
    }
}

fn show_program(program: &str) -> (r: String)
    ensures
        r@ == quoted_program(program@),
{
    let (all_plain, slash) = look_at_word(program);
    if all_plain && slash {
        program.to_owned()
    } else {
        quote(program)
    }
}

/// A command as a line that a shell reads as this command.
pub fn command_line(program: &str, args: &Vec<String>) -> (out: String)
    ensures
        out@ == printed(program@, texts(args@)),
{
    let ghost all = seq![quoted_program(program@)] + Seq::new(
        args@.len(),
        |i: int| quoted(texts(args@)[i]),
    );
    let mut shown: Vec<String> = Vec::new();
    shown.push(show_program(program));
    let mut i: usize = 0;
    assert(texts(shown@) =~= all.take(1));
    while i < args.len()
        invariant
            i <= args.len(),
            all == seq![quoted_program(program@)] + Seq::new(
                args@.len(),
                |i: int| quoted(texts(args@)[i]),
            ),
            texts(shown@) == all.take(i + 1),
        decreases args.len() - i,
    {
        let word = show_arg(args[i].as_str());
        proof {
            assert(texts(args@)[i as int] == args@[i as int]@);
            assert(all.take(i + 2) =~= all.take(i + 1).push(word@));
            lemma_texts_push(shown@, word);
        }
        shown.push(word);
        i += 1;
    }
    assert(all.take(i + 1) =~= all);
    assert(all =~= seq![quoted_program(program@)] + Seq::new(
        texts(args@).len(),
        |i: int| quoted(texts(args@)[i]),
    ));
    join(&shown, " ")
}

// ── Laws ─────────────────────────────────────────────────────────────────

/// Whether `shown` is a word as it is, or in quotes.
pub open spec fn shows(shown: Seq<char>, w: Seq<char>) -> bool {
    shown == in_single_quotes(w) || (shown == w && is_plain_word(w))
}

/// The part of a word that has been read, and what follows.
pub open spec fn extended(word: Option<Seq<char>>, more: Seq<char>) -> Seq<char> {
    match word {
        Some(w) => w + more,
        None => more,
    }
}

proof fn lemma_read_plain(
    w: Seq<char>,
    tail: Seq<char>,
    word: Option<Seq<char>>,
    done: Seq<Seq<char>>,
)
    requires
        is_plain_word(w),
    ensures
        read_rest(w + tail, false, word, done) == read_rest(
            tail,
            false,
            Some(extended(word, w)),
            done,
        ),
    decreases w.len(),
{
    let c = w[0];
    let rest = w.drop_first();
    assert(is_plain(c));
    assert((w + tail).drop_first() =~= rest + tail);
    assert((w + tail)[0] == c);
    if rest.len() == 0 {
        assert(rest + tail =~= tail);
        assert(extended(word, w) =~= grown(word, c)->0);
    } else {
        assert forall|i: int| 0 <= i < rest.len() implies is_plain(#[trigger] rest[i]) by {
            assert(rest[i] == w[i + 1]);
        }
        lemma_read_plain(rest, tail, grown(word, c), done);
        assert(extended(grown(word, c), rest) =~= extended(word, w));
    }
}

proof fn lemma_read_quoted_char(
    c: char,
    tail: Seq<char>,
    w: Seq<char>,
    done: Seq<Seq<char>>,
)
    ensures
        read_rest(quoted_char(c) + tail, true, Some(w), done) == read_rest(
            tail,
            true,
            Some(w.push(c)),
            done,
        ),
{
    let s = quoted_char(c) + tail;
    if c == '\'' {
        let s1 = s.drop_first();
        assert(s1 =~= seq!['\\', '\'', '\''] + tail);
        let s2 = s1.drop_first();
        assert(s2 =~= seq!['\'', '\''] + tail);
        let s3 = s2.drop_first();
        assert(s3 =~= seq!['\''] + tail);
        let s4 = s3.drop_first();
        assert(s4 =~= tail);
        assert(s[0] == '\'' && s1[0] == '\\' && s2[0] == '\'' && s3[0] == '\'');
        assert(read_rest(s, true, Some(w), done) == read_rest(s1, false, Some(w), done));
        assert(read_rest(s1, false, Some(w), done) == read_rest(s3, false, Some(w.push('\'')), done));
        assert(read_rest(s3, false, Some(w.push('\'')), done) == read_rest(
            s4,
            true,
            Some(w.push('\'')),
            done,
        ));
    } else {
        assert(s.drop_first() =~= tail);
        assert(s[0] == c);
    }
}

proof fn lemma_read_quoted_chars(
    s: Seq<char>,
    tail: Seq<char>,
    w: Seq<char>,
    done: Seq<Seq<char>>,
)
    ensures
        read_rest(quoted_chars(s) + tail, true, Some(w), done) == read_rest(
            tail,
            true,
            Some(w + s),
            done,
        ),
    decreases s.len(),
{
    if s.len() == 0 {
        assert(quoted_chars(s) + tail =~= tail);
        assert(w + s =~= w);
    } else {
        let c = s.last();
        let before = s.drop_last();
        assert(quoted_chars(s) + tail =~= quoted_chars(before) + (quoted_char(c) + tail));
        lemma_read_quoted_chars(before, quoted_char(c) + tail, w, done);
        lemma_read_quoted_char(c, tail, w + before, done);
        assert((w + before).push(c) =~= w + s);
    }
}

proof fn lemma_read_word(shown: Seq<char>, w: Seq<char>, tail: Seq<char>, done: Seq<Seq<char>>)
    requires
        shows(shown, w),
    ensures
        read_rest(shown + tail, false, None, done) == read_rest(tail, false, Some(w), done),
{
    if shown == w && is_plain_word(w) {
        lemma_read_plain(w, tail, None, done);
    } else {
        reveal_strlit("'");
        assert("'"@ =~= seq!['\'']);
        let body = quoted_chars(w);
        let s = shown + tail;
        let close = seq!['\''] + tail;
        assert(s.drop_first() =~= body + close);
        assert(s[0] == '\'');
        assert(read_rest(s, false, None, done) == read_rest(
            body + close,
            true,
            Some(Seq::empty()),
            done,
        ));
        lemma_read_quoted_chars(w, close, Seq::empty(), done);
        assert(Seq::<char>::empty() + w =~= w);
        assert(close.drop_first() =~= tail);
        assert(close[0] == '\'');
    }
}

proof fn lemma_read_words(shown: Seq<Seq<char>>, ws: Seq<Seq<char>>, tail: Seq<char>)
    requires
        ws.len() > 0,
        shown.len() == ws.len(),
        forall|i: int| 0 <= i < ws.len() ==> shows(#[trigger] shown[i], ws[i]),
    ensures
        read_rest(joined(shown, " "@) + tail, false, None, Seq::empty()) == read_rest(
            tail,
            false,
            Some(ws.last()),
            ws.drop_last(),
        ),
    decreases ws.len(),
{
    assert(shows(shown[ws.len() - 1], ws[ws.len() - 1]));
    if ws.len() == 1 {
        lemma_read_word(shown[0], ws[0], tail, Seq::empty());
        assert(ws.drop_last() =~= Seq::empty());
    } else {
        reveal_strlit(" ");
        assert(" "@ =~= seq![' ']);
        let before = shown.drop_last();
        let ws1 = ws.drop_last();
        assert forall|i: int| 0 <= i < ws1.len() implies shows(#[trigger] before[i], ws1[i]) by {
            assert(shows(shown[i], ws[i]));
        }
        let rest = seq![' '] + (shown.last() + tail);
        lemma_read_words(before, ws1, rest);
        assert(joined(shown, " "@) + tail =~= joined(before, " "@) + rest);
        assert(rest.drop_first() =~= shown.last() + tail);
        assert(rest[0] == ' ');
        assert(ws1.drop_last().push(ws1.last()) =~= ws1);
        lemma_read_word(shown.last(), ws.last(), tail, ws1);
    }
}

/// A shell that reads a printed command gets back the program and the
/// arguments, in order.
pub proof fn law_printed_command_reads_back(program: Seq<char>, args: Seq<Seq<char>>)
    ensures
        shell_words(printed(program, args)) == Some(seq![program] + args),
{
    let ws = seq![program] + args;
    let shown = seq![quoted_program(program)] + Seq::new(args.len(), |i: int| quoted(args[i]));
    assert forall|i: int| 0 <= i < ws.len() implies shows(#[trigger] shown[i], ws[i]) by {
        if i > 0 {
            assert(shown[i] == quoted(args[i - 1]));
            assert(ws[i] == args[i - 1]);
        }
    }
    lemma_read_words(shown, ws, Seq::empty());
    assert(joined(shown, " "@) + Seq::empty() =~= joined(shown, " "@));
    assert(ws.drop_last().push(ws.last()) =~= ws);
}

/// A word of letters, digits and a few other characters is printed as it is;
/// any other stands in single quotes. So does a program whose name has no slash.
pub proof fn law_what_is_quoted(w: Seq<char>)
    requires
        !w.contains('\''),
    ensures
        ({
            let plain = w.len() > 0 && forall|i: int|
                0 <= i < w.len() ==> ('a' <= #[trigger] w[i] <= 'z' || 'A' <= w[i] <= 'Z' || '0'
                    <= w[i] <= '9' || w[i] == '_' || w[i] == '-' || w[i] == '.' || w[i] == '/'
                    || w[i] == ':' || w[i] == ',' || w[i] == '+' || w[i] == '@');
            let in_quotes = seq!['\''] + w + seq!['\''];
            &&& plain ==> quoted(w) == w
            &&& !plain ==> quoted(w) == in_quotes
            &&& plain && w.contains('/') ==> quoted_program(w) == w
            &&& !plain || !w.contains('/') ==> quoted_program(w) == in_quotes
        }),
{
    assert("'"@ =~= seq!['\'']) by {
        reveal_strlit("'");
    }
    lemma_nothing_to_quote(w);
    assert forall|i: int| 0 <= i < w.len() implies (is_plain(#[trigger] w[i]) <==> 'a' <= w[i]
        <= 'z' || 'A' <= w[i] <= 'Z' || '0' <= w[i] <= '9' || w[i] == '_' || w[i] == '-' || w[i]
        == '.' || w[i] == '/' || w[i] == ':' || w[i] == ',' || w[i] == '+' || w[i] == '@') by {
        lemma_plain_characters(w[i]);
    }
}

proof fn lemma_plain_characters(c: char)
    ensures
        is_plain(c) <==> 'a' <= c <= 'z' || 'A' <= c <= 'Z' || '0' <= c <= '9' || c == '_' || c
            == '-' || c == '.' || c == '/' || c == ':' || c == ',' || c == '+' || c == '@',
{
}

proof fn lemma_nothing_to_quote(w: Seq<char>)
    requires
        !w.contains('\''),
    ensures
        quoted_chars(w) == w,
    decreases w.len(),
{
    if w.len() > 0 {
        let before = w.drop_last();
        assert(w[w.len() - 1] == w.last());
        assert(!before.contains('\'')) by {
            if before.contains('\'') {
                let i = choose|i: int| 0 <= i < before.len() && before[i] == '\'';
                assert(w[i] == '\'');
            }
        }
        lemma_nothing_to_quote(before);
        assert(before + seq![w.last()] =~= w);
    } else {
        assert(w =~= Seq::empty());
    }
}

/// A single quote within a word that stands in quotes ends them, stands behind
/// a backslash, and begins them again.
pub proof fn law_quote_within_quotes(a: Seq<char>, b: Seq<char>)
    requires
        !a.contains('\''),
    ensures
        in_single_quotes(a + seq!['\''] + b) == seq!['\''] + a + seq!['\'', '\\', '\'']
            + in_single_quotes(b),
{
    assert("'"@ =~= seq!['\'']) by {
        reveal_strlit("'");
    }
    lemma_nothing_to_quote(a);
    lemma_quoted_in_pieces(a, seq!['\'']);
    lemma_quoted_in_pieces(a + seq!['\''], b);
    assert(seq!['\''].drop_last() =~= Seq::empty());
    assert(quoted_chars(seq!['\''].drop_last()) =~= Seq::empty());
    assert(quoted_chars(seq!['\'']) =~= seq!['\'', '\\', '\'', '\'']);
    assert(in_single_quotes(a + seq!['\''] + b) =~= seq!['\''] + a + seq!['\'', '\\', '\'']
        + in_single_quotes(b));
}

proof fn lemma_quoted_in_pieces(a: Seq<char>, b: Seq<char>)
    ensures
        quoted_chars(a + b) == quoted_chars(a) + quoted_chars(b),
    decreases b.len(),
{
    if b.len() == 0 {
        assert(a + b =~= a);
        assert(quoted_chars(a) + quoted_chars(b) =~= quoted_chars(a));
    } else {
        lemma_quoted_in_pieces(a, b.drop_last());
        assert((a + b).drop_last() =~= a + b.drop_last());
        assert((a + b).last() == b.last());
        assert(quoted_chars(a + b) =~= quoted_chars(a) + quoted_chars(b));
    }
}

/// A command is printed word by word, with a space between two.
pub proof fn law_printed_word_by_word(program: Seq<char>, args: Seq<Seq<char>>, arg: Seq<char>)
    ensures
        printed(program, Seq::empty()) == quoted_program(program),
        printed(program, args.push(arg)) == printed(program, args) + " "@ + quoted(arg),
{
    let none = Seq::<Seq<char>>::empty();
    let alone = seq![quoted_program(program)] + Seq::new(none.len(), |i: int| quoted(none[i]));
    assert(alone =~= seq![quoted_program(program)]);
    law_join_of_one(quoted_program(program), " "@);
    let more = args.push(arg);
    let before = seq![quoted_program(program)] + Seq::new(args.len(), |i: int| quoted(args[i]));
    let after = seq![quoted_program(program)] + Seq::new(more.len(), |i: int| quoted(more[i]));
    assert(after =~= before + seq![quoted(arg)]);
    law_join_in_parts(before, seq![quoted(arg)], " "@);
    law_join_of_one(quoted(arg), " "@);
}

proof fn lemma_read_on(
    a: Seq<char>,
    in_quotes: bool,
    word: Option<Seq<char>>,
    done: Seq<Seq<char>>,
    b: Seq<char>,
)
    requires
        read_rest(a, in_quotes, word, done) is Some,
    ensures
        read_rest(a + seq![' '] + b, in_quotes, word, done) == read_rest(
            b,
            false,
            None,
            read_rest(a, in_quotes, word, done)->0,
        ),
    decreases a.len(),
{
    let s = a + seq![' '] + b;
    if a.len() == 0 {
        assert(s.drop_first() =~= b);
        assert(s[0] == ' ');
    } else {
        let c = a[0];
        let next = a.drop_first();
        assert(s[0] == c);
        assert(s.drop_first() =~= next + seq![' '] + b);
        if in_quotes {
            if c == '\'' {
                lemma_read_on(next, false, word, done, b);
            } else {
                lemma_read_on(next, true, grown(word, c), done, b);
            }
        } else if c == ' ' {
            match word {
                Some(w) => lemma_read_on(next, false, None, done.push(w), b),
                None => lemma_read_on(next, false, None, done, b),
            }
        } else if c == '\'' {
            let begun = match word {
                Some(w) => w,
                None => Seq::empty(),
            };
            lemma_read_on(next, true, Some(begun), done, b);
        } else if c == '\\' {
            assert(s.drop_first()[0] == next[0]);
            assert(s.drop_first().drop_first() =~= next.drop_first() + seq![' '] + b);
            lemma_read_on(next.drop_first(), false, grown(word, next[0]), done, b);
        } else {
            lemma_read_on(next, false, grown(word, c), done, b);
        }
    }
}

/// A shell reads word by word: behind a line that it can read and a space, a
/// word of letters and digits as it is, and whatever stands in single quotes as
/// one word. A line with a quote that is not closed it cannot read.
pub proof fn law_shell_reads_word_by_word(line: Seq<char>, w: Seq<char>)
    requires
        shell_words(line) is Some,
    ensures
        shell_words(Seq::empty()) == Some(Seq::<Seq<char>>::empty()),
        w.len() > 0 && (forall|i: int|
            0 <= i < w.len() ==> 'a' <= #[trigger] w[i] <= 'z' || '0' <= w[i] <= '9')
            ==> shell_words(line + seq![' '] + w) == Some(shell_words(line)->0.push(w)),
        !w.contains('\'') ==> shell_words(line + seq![' '] + (seq!['\''] + w + seq!['\''])) == Some(
            shell_words(line)->0.push(w),
        ),
        !w.contains('\'') ==> shell_words(line + seq![' '] + (seq!['\''] + w)) is None,
{
    let none = Seq::<char>::empty();
    let ws = shell_words(line)->0;
    lemma_read_on(line, false, None, Seq::empty(), w);
    let quoted_w = seq!['\''] + w + seq!['\''];
    lemma_read_on(line, false, None, Seq::empty(), quoted_w);
    lemma_read_on(line, false, None, Seq::empty(), seq!['\''] + w);
    if w.len() > 0 && (forall|i: int|
        0 <= i < w.len() ==> 'a' <= #[trigger] w[i] <= 'z' || '0' <= w[i] <= '9') {
        assert forall|i: int| 0 <= i < w.len() implies is_plain(#[trigger] w[i]) by {
            lemma_plain_characters(w[i]);
        }
        lemma_read_plain(w, none, None, ws);
        assert(w + none =~= w);
    }
    if !w.contains('\'') {
        lemma_nothing_to_quote(w);
        assert(quoted_w == in_single_quotes(w)) by {
            reveal_strlit("'");
            assert("'"@ =~= seq!['\'']);
        }
        lemma_read_word(quoted_w, w, none, ws);
        assert(quoted_w + none =~= quoted_w);
        let open = seq!['\''] + w;
        assert(open.drop_first() =~= w && open[0] == '\'');
        lemma_read_quoted_chars(w, none, Seq::empty(), ws);
        assert(w + none =~= w);
    }
}

} // verus!
