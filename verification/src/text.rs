//! Texts as sequences of characters: cutting, joining, searching and escaping.

use vstd::prelude::*;

verus! {

/// std's `String::push`: the character is appended at the end.
pub assume_specification[ String::push ](s: &mut String, c: char)
    ensures
        final(s)@ == old(s)@.push(c),
;

// ── Views ────────────────────────────────────────────────────────────────

/// The contents of a list of strings.
pub open spec fn texts(list: Seq<String>) -> Seq<Seq<char>> {
    Seq::new(list.len(), |i: int| list[i]@)
}

/// The contents of an optional borrowed text.
pub open spec fn opt_str(o: Option<&str>) -> Option<Seq<char>> {
    match o {
        Some(s) => Some(s@),
        None => None,
    }
}

pub proof fn lemma_texts_push(list: Seq<String>, s: String)
    ensures
        texts(list.push(s)) == texts(list).push(s@),
{
    assert(texts(list.push(s)) =~= texts(list).push(s@));
}

/// The characters of a text, one by one.
pub fn chars_of(s: &str) -> (out: Vec<char>)
    ensures
        out@ == s@,
{
    let mut out: Vec<char> = Vec::new();
    for c in it: s.chars()
        invariant
            out@ == s@.take(it.index() as int),
            it.seq() == s@,
    {
        out.push(c);
    }
    out
}

/// The text made of `cs[from..to]`.
pub fn text_from(cs: &Vec<char>, from: usize, to: usize) -> (out: String)
    requires
        from <= to <= cs.len(),
    ensures
        out@ == cs@.subrange(from as int, to as int),
{
    let mut out = String::new();
    let mut i: usize = from;
    while i < to
        invariant
            from <= i <= to <= cs.len(),
            out@ == cs@.subrange(from as int, i as int),
        decreases to - i,
    {
        out.push(cs[i]);
        i += 1;
    }
    out
}

/// Whether two texts hold the same characters.
pub fn same_text(a: &str, b: &str) -> (r: bool)
    ensures
        r == (a@ == b@),
{
    let x = chars_of(a);
    let y = chars_of(b);
    if x.len() != y.len() {
        return false;
    }
    let mut i: usize = 0;
    while i < x.len()
        invariant
            x@ == a@,
            y@ == b@,
            x.len() == y.len(),
            i <= x.len(),
            forall|j: int| 0 <= j < i ==> x[j] == y[j],
        decreases x.len() - i,
    {
        if x[i] != y[i] {
            return false;
        }
        i += 1;
    }
    assert(x@ =~= y@);
    true
}

// ── Putting texts together ───────────────────────────────────────────────

/// Two texts, one after another.
pub fn cat2(a: &str, b: &str) -> (out: String)
    ensures
        out@ == a@ + b@,
{
    let mut out = a.to_owned();
    out.append(b);
    out
}

/// Three texts, one after another.
pub fn cat3(a: &str, b: &str, c: &str) -> (out: String)
    ensures
        out@ == a@ + b@ + c@,
{
    let mut out = a.to_owned();
    out.append(b);
    out.append(c);
    out
}

/// Four texts, one after another.
pub fn cat4(a: &str, b: &str, c: &str, d: &str) -> (out: String)
    ensures
        out@ == a@ + b@ + c@ + d@,
{
    let mut out = a.to_owned();
    out.append(b);
    out.append(c);
    out.append(d);
    out
}

/// Five texts, one after another.
pub fn cat5(a: &str, b: &str, c: &str, d: &str, e: &str) -> (out: String)
    ensures
        out@ == a@ + b@ + c@ + d@ + e@,
{
    let mut out = a.to_owned();
    out.append(b);
    out.append(c);
    out.append(d);
    out.append(e);
    out
}

// ── Character classes ────────────────────────────────────────────────────

/// The characters with the Unicode property `White_Space`.
pub open spec fn is_white(c: char) -> bool {
    let n = c as u32;
    ||| 0x9 <= n <= 0xd
    ||| n == 0x20 || n == 0x85 || n == 0xa0 || n == 0x1680
    ||| 0x2000 <= n <= 0x200a
    ||| n == 0x2028 || n == 0x2029 || n == 0x202f || n == 0x205f || n == 0x3000
}

/// The characters of the Unicode category `Cc`.
pub open spec fn is_control_char(c: char) -> bool {
    let n = c as u32;
    n <= 0x1f || 0x7f <= n <= 0x9f
}

/// Whether a character is white space, as Unicode's `White_Space` property has it.
pub fn is_whitespace(c: char) -> (r: bool)
    ensures
        r == is_white(c),
{
    let n: u32 = c as u32;
    (0x9 <= n && n <= 0xd) || n == 0x20 || n == 0x85 || n == 0xa0 || n == 0x1680 || (0x2000 <= n
        && n <= 0x200a) || n == 0x2028 || n == 0x2029 || n == 0x202f || n == 0x205f || n == 0x3000
}

/// Whether a character is a control code (Unicode category `Cc`).
pub fn is_control(c: char) -> (r: bool)
    ensures
        r == is_control_char(c),
{
    let n: u32 = c as u32;
    n <= 0x1f || (0x7f <= n && n <= 0x9f)
}

/// What a trim takes off the two ends of a text.
#[derive(Clone, Copy)]
pub enum Edge {
    White,
    Underscore,
}

impl Edge {
    pub open spec fn has(self, c: char) -> bool {
        match self {
            Edge::White => is_white(c),
            Edge::Underscore => c == '_',
        }
    }

    pub fn test(self, c: char) -> (r: bool)
        ensures
            r == self.has(c),
    {
        match self {
            Edge::White => is_whitespace(c),
            Edge::Underscore => c == '_',
        }
    }
}

// ── Trimming ─────────────────────────────────────────────────────────────

/// `s` without the run of edge characters that it starts with.
pub open spec fn cut_front(s: Seq<char>, e: Edge) -> Seq<char>
    decreases s.len(),
{
    if s.len() > 0 && e.has(s[0]) {
        cut_front(s.drop_first(), e)
    } else {
        s
    }
}

/// `s` without the run of edge characters that it ends with.
pub open spec fn cut_back(s: Seq<char>, e: Edge) -> Seq<char>
    decreases s.len(),
{
    if s.len() > 0 && e.has(s.last()) {
        cut_back(s.drop_last(), e)
    } else {
        s
    }
}

/// `s` without edge characters at either end.
pub open spec fn cut_both(s: Seq<char>, e: Edge) -> Seq<char> {
    cut_back(cut_front(s, e), e)
}

/// `s` without white space at either end.
pub open spec fn trimmed(s: Seq<char>) -> Seq<char> {
    cut_both(s, Edge::White)
}

/// `cs` without edge characters at either end.
pub fn cut_edges(cs: &Vec<char>, e: Edge) -> (out: String)
    ensures
        out@ == cut_both(cs@, e),
{
    let mut from: usize = 0;
    proof {
        assert(cs@.subrange(0, cs@.len() as int) =~= cs@);
    }
    while from < cs.len() && e.test(cs[from])
        invariant
            from <= cs.len(),
            cut_front(cs@.subrange(from as int, cs@.len() as int), e) == cut_front(cs@, e),
        decreases cs.len() - from,
    {
        proof {
            let s = cs@.subrange(from as int, cs@.len() as int);
            assert(s.drop_first() =~= cs@.subrange(from as int + 1, cs@.len() as int));
        }
        from += 1;
    }
    proof {
        let s = cs@.subrange(from as int, cs@.len() as int);
        assert(s.len() > 0 ==> s[0] == cs@[from as int]);
    }
    let mut to: usize = cs.len();
    while to > from && e.test(cs[to - 1])
        invariant
            from <= to <= cs.len(),
            cut_back(cs@.subrange(from as int, to as int), e) == cut_both(cs@, e),
        decreases to,
    {
        proof {
            let s = cs@.subrange(from as int, to as int);
            assert(s.drop_last() =~= cs@.subrange(from as int, to as int - 1));
        }
        to -= 1;
    }
    proof {
        let s = cs@.subrange(from as int, to as int);
        assert(s.len() > 0 ==> s.last() == cs@[to as int - 1]);
    }
    text_from(cs, from, to)
}

/// `s` without white space at either end.
pub fn trim(s: &str) -> (out: String)
    ensures
        out@ == trimmed(s@),
{
    let cs = chars_of(s);
    cut_edges(&cs, Edge::White)
}

/// What is left by a cut is a run of the text, and no end of it is an edge character.
pub proof fn lemma_cut(s: Seq<char>, e: Edge)
    ensures
        cut_both(s, e).len() > 0 ==> !e.has(cut_both(s, e)[0]) && !e.has(cut_both(s, e).last()),
        exists|i: int, j: int|
            0 <= i <= j <= s.len() && cut_both(s, e) == #[trigger] s.subrange(i, j),
{
    lemma_cut_front(s, e);
    let f = cut_front(s, e);
    lemma_cut_back(f, e);
    let b = cut_back(f, e);
    let i = s.len() - f.len();
    assert(b =~= s.subrange(i, i + b.len()));
}

proof fn lemma_cut_front(s: Seq<char>, e: Edge)
    ensures
        cut_front(s, e).len() <= s.len(),
        cut_front(s, e) == s.subrange(s.len() - cut_front(s, e).len(), s.len() as int),
        cut_front(s, e).len() > 0 ==> !e.has(cut_front(s, e)[0]),
    decreases s.len(),
{
    if s.len() > 0 && e.has(s[0]) {
        lemma_cut_front(s.drop_first(), e);
        let f = cut_front(s, e);
        assert(f =~= s.subrange(s.len() - f.len(), s.len() as int));
    } else {
        assert(s =~= s.subrange(0, s.len() as int));
    }
}

proof fn lemma_cut_back(s: Seq<char>, e: Edge)
    ensures
        cut_back(s, e).len() <= s.len(),
        cut_back(s, e) == s.subrange(0, cut_back(s, e).len() as int),
        cut_back(s, e).len() > 0 ==> !e.has(cut_back(s, e).last()),
    decreases s.len(),
{
    if s.len() > 0 && e.has(s.last()) {
        lemma_cut_back(s.drop_last(), e);
        let f = cut_back(s, e);
        assert(f =~= s.subrange(0, f.len() as int));
    } else {
        assert(s =~= s.subrange(0, s.len() as int));
    }
}

/// A text whose ends are no edge characters is left as it is.
pub proof fn lemma_cut_nothing(s: Seq<char>, e: Edge)
    requires
        s.len() > 0 ==> !e.has(s[0]) && !e.has(s.last()),
    ensures
        cut_both(s, e) == s,
{
}

// ── Splitting and joining ────────────────────────────────────────────────

/// The pieces of `s` between the separators.
pub open spec fn pieces(s: Seq<char>, sep: char) -> Seq<Seq<char>>
    decreases s.len(),
{
    if s.len() == 0 {
        seq![Seq::empty()]
    } else {
        let before = pieces(s.drop_last(), sep);
        if s.last() == sep {
            before.push(Seq::empty())
        } else {
            before.drop_last().push(before.last().push(s.last()))
        }
    }
}

/// The parts one after another, with `sep` between them.
pub open spec fn joined(parts: Seq<Seq<char>>, sep: Seq<char>) -> Seq<char>
    decreases parts.len(),
{
    if parts.len() == 0 {
        Seq::empty()
    } else if parts.len() == 1 {
        parts[0]
    } else {
        joined(parts.drop_last(), sep) + sep + parts.last()
    }
}

/// The pieces of `s` between the separators, in order.
pub fn split_on(s: &str, sep: char) -> (out: Vec<String>)
    ensures
        texts(out@) == pieces(s@, sep),
        out.len() > 0,
{
    let cs = chars_of(s);
    let mut out: Vec<String> = Vec::new();
    let mut cur = String::new();
    let mut i: usize = 0;
    proof {
        assert(texts(out@).push(cur@) =~= pieces(cs@.take(0), sep));
    }
    while i < cs.len()
        invariant
            i <= cs.len(),
            texts(out@).push(cur@) == pieces(cs@.take(i as int), sep),
        decreases cs.len() - i,
    {
        let ghost before = texts(out@).push(cur@);
        proof {
            assert(cs@.take(i as int + 1).drop_last() =~= cs@.take(i as int));
            assert(before.drop_last() =~= texts(out@));
        }
        let c = cs[i];
        if c == sep {
            let mut next = String::new();
            proof {
                lemma_texts_push(out@, cur);
            }
            out.push(cur);
            cur = next;
        } else {
            cur.push(c);
        }
        i += 1;
    }
    proof {
        assert(cs@.take(i as int) =~= cs@);
        lemma_texts_push(out@, cur);
    }
    out.push(cur);
    out
}

/// The parts one after another, with `sep` between them.
pub fn join(parts: &Vec<String>, sep: &str) -> (out: String)
    ensures
        out@ == joined(texts(parts@), sep@),
{
    let mut out = String::new();
    let mut i: usize = 0;
    proof {
        assert(texts(parts@).take(0) =~= Seq::empty());
    }
    while i < parts.len()
        invariant
            i <= parts.len(),
            out@ == joined(texts(parts@).take(i as int), sep@),
        decreases parts.len() - i,
    {
        let ghost now = texts(parts@).take(i as int + 1);
        proof {
            assert(now.drop_last() =~= texts(parts@).take(i as int));
            assert(now.last() == parts@[i as int]@);
        }
        if i > 0 {
            out.append(sep);
        }
        out.append(parts[i].as_str());
        proof {
            if i == 0 {
                assert(out@ =~= parts@[0]@);
            }
        }
        i += 1;
    }
    proof {
        assert(texts(parts@).take(i as int) =~= texts(parts@));
    }
    out
}

// ── Searching ────────────────────────────────────────────────────────────

/// Whether `pat` stands in `s` from position `i` on.
pub open spec fn occurs_at(s: Seq<char>, pat: Seq<char>, i: int) -> bool {
    0 <= i && i + pat.len() <= s.len() && s.subrange(i, i + pat.len()) == pat
}

/// Whether `pat` stands anywhere in `s`.
pub open spec fn occurs(s: Seq<char>, pat: Seq<char>) -> bool {
    exists|i: int| occurs_at(s, pat, i)
}

fn matches_at(s: &Vec<char>, pat: &Vec<char>, at: usize) -> (r: bool)
    requires
        at <= s.len(),
    ensures
        r == occurs_at(s@, pat@, at as int),
{
    if pat.len() > s.len() - at {
        return false;
    }
    let mut i: usize = 0;
    while i < pat.len()
        invariant
            i <= pat.len(),
            at + pat.len() <= s.len(),
            forall|j: int| 0 <= j < i ==> s@[at + j] == pat@[j],
        decreases pat.len() - i,
    {
        if s[at + i] != pat[i] {
            proof {
                let w = s@.subrange(at as int, at + pat@.len());
                assert(w[i as int] != pat@[i as int]);
            }
            return false;
        }
        i += 1;
    }
    proof {
        assert(s@.subrange(at as int, at + pat@.len()) =~= pat@);
    }
    true
}

/// Whether `pat` stands anywhere in `s`.
pub fn contains(s: &str, pat: &str) -> (r: bool)
    ensures
        r == occurs(s@, pat@),
{
    let cs = chars_of(s);
    let ps = chars_of(pat);
    let mut i: usize = 0;
    loop
        invariant
            cs@ == s@,
            ps@ == pat@,
            i <= cs.len(),
            forall|j: int| 0 <= j < i ==> !occurs_at(cs@, ps@, j),
        decreases cs.len() - i,
    {
        if matches_at(&cs, &ps, i) {
            return true;
        }
        if i == cs.len() {
            return false;
        }
        i += 1;
    }
}

/// Whether `s` begins with `pat`.
pub fn starts_with(s: &str, pat: &str) -> (r: bool)
    ensures
        r == pat@.is_prefix_of(s@),
{
    let cs = chars_of(s);
    let ps = chars_of(pat);
    matches_at(&cs, &ps, 0)
}

/// Whether `s` ends with `pat`.
pub fn ends_with(s: &str, pat: &str) -> (r: bool)
    ensures
        r == pat@.is_suffix_of(s@),
{
    let cs = chars_of(s);
    let ps = chars_of(pat);
    if ps.len() > cs.len() {
        return false;
    }
    matches_at(&cs, &ps, cs.len() - ps.len())
}

// ── Replacing ────────────────────────────────────────────────────────────

/// `s` with `by` for every `pat` in it, from the front on and without overlap.
pub open spec fn replaced(s: Seq<char>, pat: Seq<char>, by: Seq<char>) -> Seq<char>
    decreases s.len(),
{
    if pat.len() == 0 || s.len() < pat.len() {
        s
    } else if pat.is_prefix_of(s) {
        by + replaced(s.skip(pat.len() as int), pat, by)
    } else {
        seq![s[0]] + replaced(s.drop_first(), pat, by)
    }
}

/// `s` with `by` for every `pat` in it; as it is where `pat` is empty.
pub fn replace(s: &str, pat: &str, by: &str) -> (out: String)
    ensures
        out@ == replaced(s@, pat@, by@),
{
    let cs = chars_of(s);
    let ps = chars_of(pat);
    if ps.len() == 0 {
        return s.to_owned();
    }
    let mut out = String::new();
    let mut i: usize = 0;
    assert(out@ + replaced(cs@.skip(0), pat@, by@) =~= replaced(cs@, pat@, by@)) by {
        assert(cs@.skip(0) =~= cs@);
    }
    while i < cs.len()
        invariant
            cs@ == s@,
            ps@ == pat@,
            ps.len() > 0,
            i <= cs.len(),
            out@ + replaced(cs@.skip(i as int), pat@, by@) == replaced(cs@, pat@, by@),
        decreases cs.len() - i,
    {
        let ghost before = out@;
        let ghost rest = cs@.skip(i as int);
        proof {
            if rest.len() >= pat@.len() {
                assert(rest.subrange(0, pat@.len() as int) =~= cs@.subrange(
                    i as int,
                    i + pat@.len(),
                ));
                assert(rest.skip(pat@.len() as int) =~= cs@.skip(i + pat@.len()));
            }
            assert(rest.drop_first() =~= cs@.skip(i + 1));
            assert(rest[0] == cs@[i as int]);
        }
        if matches_at(&cs, &ps, i) {
            out.append(by);
            i += ps.len();
            assert(out@ + replaced(cs@.skip(i as int), pat@, by@) =~= before + (by@ + replaced(
                cs@.skip(i as int),
                pat@,
                by@,
            )));
        } else {
            out.push(cs[i]);
            i += 1;
            proof {
                let next = replaced(cs@.skip(i as int), pat@, by@);
                assert(out@ + next =~= before + (seq![rest[0]] + next));
                if rest.len() < pat@.len() {
                    assert(seq![rest[0]] + rest.drop_first() =~= rest);
                }
            }
        }
    }
    assert(cs@.skip(i as int) =~= Seq::empty());
    assert(out@ + Seq::<char>::empty() =~= out@);
    out
}

// ── Laws ─────────────────────────────────────────────────────────────────

/// A text in which there is nothing to replace is left as it is.
pub proof fn law_nothing_to_replace(s: Seq<char>, pat: Seq<char>, by: Seq<char>)
    requires
        !occurs(s, pat),
    ensures
        replaced(s, pat, by) == s,
    decreases s.len(),
{
    if pat.len() > 0 && s.len() >= pat.len() {
        if pat.is_prefix_of(s) {
            assert(occurs_at(s, pat, 0));
        }
        let rest = s.drop_first();
        if occurs(rest, pat) {
            let i = choose|i: int| occurs_at(rest, pat, i);
            assert(s.subrange(i + 1, i + 1 + pat.len()) =~= rest.subrange(i, i + pat.len()));
            assert(occurs_at(s, pat, i + 1));
        }
        law_nothing_to_replace(rest, pat, by);
        assert(seq![s[0]] + rest =~= s);
    }
}

/// Trimming leaves nothing to trim.
pub proof fn law_trim_idempotent(s: Seq<char>)
    ensures
        trimmed(trimmed(s)) == trimmed(s),
{
    lemma_cut(s, Edge::White);
    lemma_cut_nothing(trimmed(s), Edge::White);
}

pub proof fn lemma_pieces_nonempty(s: Seq<char>, sep: char)
    ensures
        pieces(s, sep).len() > 0,
    decreases s.len(),
{
    if s.len() > 0 {
        lemma_pieces_nonempty(s.drop_last(), sep);
    }
}

proof fn lemma_pieces_of_one(b: Seq<char>, sep: char)
    requires
        !b.contains(sep),
    ensures
        pieces(b, sep) == seq![b],
    decreases b.len(),
{
    if b.len() > 0 {
        assert(b.contains(b[b.len() - 1]));
        assert(!b.drop_last().contains(sep)) by {
            if b.drop_last().contains(sep) {
                let i = choose|i: int| 0 <= i < b.len() - 1 && b.drop_last()[i] == sep;
                assert(b[i] == sep);
            }
        }
        lemma_pieces_of_one(b.drop_last(), sep);
        assert(b.drop_last().push(b.last()) =~= b);
        assert(pieces(b, sep) =~= seq![b]);
    } else {
        assert(b =~= Seq::empty());
    }
}

proof fn lemma_pieces_append(a: Seq<char>, b: Seq<char>, sep: char)
    requires
        !b.contains(sep),
    ensures
        pieces(a + seq![sep] + b, sep) == pieces(a, sep).push(b),
    decreases b.len(),
{
    let s = a + seq![sep] + b;
    if b.len() == 0 {
        assert(s.drop_last() =~= a);
        assert(b =~= Seq::empty());
    } else {
        let c = b.drop_last();
        assert(b.contains(b[b.len() - 1]));
        assert(!c.contains(sep)) by {
            if c.contains(sep) {
                let i = choose|i: int| 0 <= i < c.len() && c[i] == sep;
                assert(b[i] == sep);
            }
        }
        lemma_pieces_append(a, c, sep);
        assert(s.drop_last() =~= a + seq![sep] + c);
        assert(s.last() == b.last());
        assert(c.push(b.last()) =~= b);
        assert(pieces(s, sep) =~= pieces(a, sep).push(b));
    }
}

/// Parts that hold no separator are the pieces of what they are joined to.
pub proof fn law_split_of_join(parts: Seq<Seq<char>>, sep: char)
    requires
        parts.len() > 0,
        forall|i: int| 0 <= i < parts.len() ==> !(#[trigger] parts[i]).contains(sep),
    ensures
        pieces(joined(parts, seq![sep]), sep) == parts,
    decreases parts.len(),
{
    if parts.len() == 1 {
        lemma_pieces_of_one(parts[0], sep);
        assert(parts =~= seq![parts[0]]);
    } else {
        let before = parts.drop_last();
        assert forall|i: int| 0 <= i < before.len() implies !(#[trigger] before[i]).contains(
            sep,
        ) by {
            assert(before[i] == parts[i]);
        }
        law_split_of_join(before, sep);
        assert(!parts[parts.len() - 1].contains(sep));
        lemma_pieces_append(joined(before, seq![sep]), parts.last(), sep);
        assert(before.push(parts.last()) =~= parts);
    }
}

/// The pieces of a text, joined again, are the text.
pub proof fn law_join_of_split(s: Seq<char>, sep: char)
    ensures
        joined(pieces(s, sep), seq![sep]) == s,
    decreases s.len(),
{
    if s.len() == 0 {
        assert(s =~= Seq::empty());
    } else {
        law_join_of_split(s.drop_last(), sep);
        lemma_pieces_nonempty(s.drop_last(), sep);
        let before = pieces(s.drop_last(), sep);
        let now = pieces(s, sep);
        assert(now.drop_last() =~= if s.last() == sep {
            before
        } else {
            before.drop_last()
        });
        assert(joined(now, seq![sep]) =~= s) by {
            assert(s.drop_last().push(s.last()) =~= s);
        }
    }
}

/// What stands in a part of a text stands in the text.
pub proof fn lemma_occurs_inside(front: Seq<char>, s: Seq<char>, back: Seq<char>, pat: Seq<char>)
    requires
        occurs(s, pat),
    ensures
        occurs(front + s + back, pat),
{
    let i = choose|i: int| occurs_at(s, pat, i);
    let whole = front + s + back;
    let at = front.len() + i;
    assert(whole.subrange(at, at + pat.len()) =~= s.subrange(i, i + pat.len()));
    assert(occurs_at(whole, pat, at));
}

/// What stands in one of the parts stands in what they are joined to.
pub proof fn lemma_occurs_in_join(parts: Seq<Seq<char>>, sep: Seq<char>, k: int, pat: Seq<char>)
    requires
        0 <= k < parts.len(),
        occurs(parts[k], pat),
    ensures
        occurs(joined(parts, sep), pat),
    decreases parts.len(),
{
    if parts.len() > 1 {
        let before = joined(parts.drop_last(), sep);
        if k == parts.len() - 1 {
            lemma_occurs_inside(before + sep, parts.last(), Seq::empty(), pat);
            assert(before + sep + parts.last() + Seq::empty() =~= joined(parts, sep));
        } else {
            lemma_occurs_in_join(parts.drop_last(), sep, k, pat);
            lemma_occurs_inside(Seq::empty(), before, sep + parts.last(), pat);
            assert(Seq::empty() + before + (sep + parts.last()) =~= joined(parts, sep));
        }
    }
}

/// What parts are joined to begins with the first and ends with the last.
pub proof fn lemma_join_ends(parts: Seq<Seq<char>>, sep: Seq<char>)
    requires
        parts.len() > 0,
    ensures
        parts[0].is_prefix_of(joined(parts, sep)),
        parts.last().is_suffix_of(joined(parts, sep)),
    decreases parts.len(),
{
    if parts.len() > 1 {
        lemma_join_ends(parts.drop_last(), sep);
        let before = joined(parts.drop_last(), sep);
        let whole = joined(parts, sep);
        assert(whole.subrange(0, parts[0].len() as int) =~= before.subrange(
            0,
            parts[0].len() as int,
        ));
        assert(whole.subrange(whole.len() - parts.last().len(), whole.len() as int)
            =~= parts.last());
    }
}

/// Whether every character is white space.
pub open spec fn is_blank(s: Seq<char>) -> bool {
    forall|i: int| 0 <= i < s.len() ==> is_white(#[trigger] s[i])
}

proof fn lemma_front_is_cut(a: Seq<char>, r: Seq<char>)
    requires
        is_blank(a),
    ensures
        cut_front(a + r, Edge::White) == cut_front(r, Edge::White),
    decreases a.len(),
{
    if a.len() == 0 {
        assert(a + r =~= r);
    } else {
        let rest = a.drop_first();
        assert forall|i: int| 0 <= i < rest.len() implies is_white(#[trigger] rest[i]) by {
            assert(rest[i] == a[i + 1]);
        }
        assert((a + r)[0] == a[0]);
        assert((a + r).drop_first() =~= rest + r);
        lemma_front_is_cut(rest, r);
    }
}

proof fn lemma_back_is_cut(m: Seq<char>, b: Seq<char>)
    requires
        is_blank(b),
        m.len() > 0 ==> !is_white(m.last()),
    ensures
        cut_back(m + b, Edge::White) == m,
    decreases b.len(),
{
    if b.len() == 0 {
        assert(m + b =~= m);
    } else {
        let rest = b.drop_last();
        assert forall|i: int| 0 <= i < rest.len() implies is_white(#[trigger] rest[i]) by {
            assert(rest[i] == b[i]);
        }
        assert((m + b).last() == b[b.len() - 1]);
        assert((m + b).drop_last() =~= m + rest);
        lemma_back_is_cut(m, rest);
    }
}

/// The white space around a text is cut off, and nothing else is.
pub proof fn law_trim_cuts_white_space(a: Seq<char>, m: Seq<char>, b: Seq<char>)
    requires
        is_blank(a),
        is_blank(b),
        m.len() > 0 ==> !is_white(m[0]) && !is_white(m.last()),
    ensures
        trimmed(a + m + b) == m,
{
    assert(a + m + b =~= a + (m + b));
    lemma_front_is_cut(a, m + b);
    if m.len() > 0 {
        assert((m + b)[0] == m[0]);
        lemma_back_is_cut(m, b);
    } else {
        assert(m + b =~= b + m);
        lemma_front_is_cut(b, m);
        assert(m =~= Seq::empty());
    }
}

/// Whatever is cut in two at a separator is split like its two parts.
pub proof fn law_split_in_parts(a: Seq<char>, b: Seq<char>, sep: char)
    ensures
        pieces(a + seq![sep] + b, sep) == pieces(a, sep) + pieces(b, sep),
    decreases b.len(),
{
    let s = a + seq![sep] + b;
    lemma_pieces_nonempty(a, sep);
    lemma_pieces_nonempty(b, sep);
    if b.len() == 0 {
        assert(s.drop_last() =~= a);
        assert(s.last() == sep);
        assert(pieces(a, sep).push(Seq::empty()) =~= pieces(a, sep) + pieces(b, sep));
    } else {
        let c = b.drop_last();
        law_split_in_parts(a, c, sep);
        lemma_pieces_nonempty(c, sep);
        assert(s.drop_last() =~= a + seq![sep] + c);
        assert(s.last() == b.last());
        let before = pieces(a, sep) + pieces(c, sep);
        assert(before.last() == pieces(c, sep).last());
        assert(before.drop_last() =~= pieces(a, sep) + pieces(c, sep).drop_last());
        assert(pieces(s, sep) =~= pieces(a, sep) + pieces(b, sep));
    }
}

/// A text without the separator is one piece.
pub proof fn law_one_piece(s: Seq<char>, sep: char)
    requires
        !s.contains(sep),
    ensures
        pieces(s, sep) == seq![s],
{
    lemma_pieces_of_one(s, sep);
}

/// A list of parts is joined like two lists with the separator between them.
pub proof fn law_join_in_parts(a: Seq<Seq<char>>, b: Seq<Seq<char>>, sep: Seq<char>)
    requires
        a.len() > 0,
        b.len() > 0,
    ensures
        joined(a + b, sep) == joined(a, sep) + sep + joined(b, sep),
    decreases b.len(),
{
    let all = a + b;
    assert(all.last() == b.last());
    if b.len() == 1 {
        assert(all.drop_last() =~= a);
    } else {
        let c = b.drop_last();
        law_join_in_parts(a, c, sep);
        assert(all.drop_last() =~= a + c);
        let (x, y) = (joined(a, sep), joined(c, sep));
        assert(x + sep + y + sep + b.last() =~= x + sep + (y + sep + b.last()));
    }
}

/// One part is joined to itself, and none to nothing.
pub proof fn law_join_of_one(a: Seq<char>, sep: Seq<char>)
    ensures
        joined(seq![a], sep) == a,
        joined(Seq::empty(), sep) == Seq::<char>::empty(),
{
}

/// A pattern stands in a text where the text can be cut around it, and only
/// there.
pub proof fn law_occurs_inside(s: Seq<char>, pat: Seq<char>)
    ensures
        occurs(s, pat) <==> exists|front: Seq<char>, back: Seq<char>|
            s == #[trigger] (front + pat + back),
{
    if occurs(s, pat) {
        let i = choose|i: int| occurs_at(s, pat, i);
        let front = s.take(i);
        let back = s.skip(i + pat.len());
        assert forall|k: int| 0 <= k < pat.len() implies s[i + k] == pat[k] by {
            assert(s.subrange(i, i + pat.len())[k] == s[i + k]);
        }
        assert(s =~= front + pat + back);
    }
    if exists|front: Seq<char>, back: Seq<char>| s == #[trigger] (front + pat + back) {
        let (front, back) = choose|front: Seq<char>, back: Seq<char>|
            s == #[trigger] (front + pat + back);
        let at = front.len() as int;
        assert(s.subrange(at, at + pat.len()) =~= pat);
        assert(occurs_at(s, pat, at));
    }
}

/// The first place where a pattern stands is replaced and the text before it
/// kept; behind it the replacing goes on.
pub proof fn law_replace_the_first(
    front: Seq<char>,
    back: Seq<char>,
    pat: Seq<char>,
    by: Seq<char>,
)
    requires
        pat.len() > 0,
        forall|i: int| 0 <= i < front.len() ==> !#[trigger] occurs_at(front + pat + back, pat, i),
    ensures
        replaced(front + pat + back, pat, by) == front + by + replaced(back, pat, by),
    decreases front.len(),
{
    let s = front + pat + back;
    if front.len() == 0 {
        assert(s.subrange(0, pat.len() as int) =~= pat);
        assert(s.skip(pat.len() as int) =~= back);
        assert(front + by + replaced(back, pat, by) =~= by + replaced(back, pat, by));
    } else {
        let rest = front.drop_first();
        let t = rest + pat + back;
        assert(s.drop_first() =~= t);
        assert(!occurs_at(s, pat, 0));
        assert forall|i: int| 0 <= i < rest.len() implies !#[trigger] occurs_at(t, pat, i) by {
            if occurs_at(t, pat, i) {
                assert(s.subrange(i + 1, i + 1 + pat.len()) =~= t.subrange(i, i + pat.len()));
                assert(occurs_at(s, pat, i + 1));
            }
        }
        law_replace_the_first(rest, back, pat, by);
        assert(seq![s[0]] + (rest + by + replaced(back, pat, by)) =~= front + by + replaced(
            back,
            pat,
            by,
        ));
    }
}

/// The characters that are white space, and those that are control codes.
pub proof fn law_white_space_and_control_codes(c: char)
    ensures
        is_white(c) <==> c == '\t' || c == '\n' || c == '\u{b}' || c == '\u{c}' || c == '\r' || c
            == ' ' || c == '\u{85}' || c == '\u{a0}' || c == '\u{1680}' || '\u{2000}' <= c
            <= '\u{200a}' || c == '\u{2028}' || c == '\u{2029}' || c == '\u{202f}' || c
            == '\u{205f}' || c == '\u{3000}',
        is_control_char(c) <==> c < ' ' || '\u{7f}' <= c <= '\u{9f}',
{
}

proof fn lemma_all_of_it_is_cut(s: Seq<char>)
    ensures
        cut_front(s, Edge::White).len() == 0 ==> is_blank(s),
        cut_back(s, Edge::White).len() == 0 ==> is_blank(s),
    decreases s.len(),
{
    if s.len() > 0 {
        lemma_all_of_it_is_cut(s.drop_first());
        lemma_all_of_it_is_cut(s.drop_last());
        if cut_front(s, Edge::White).len() == 0 {
            assert forall|i: int| 0 <= i < s.len() implies is_white(#[trigger] s[i]) by {
                if i > 0 {
                    assert(s.drop_first()[i - 1] == s[i]);
                }
            }
        }
        if cut_back(s, Edge::White).len() == 0 {
            assert forall|i: int| 0 <= i < s.len() implies is_white(#[trigger] s[i]) by {
                if i < s.len() - 1 {
                    assert(s.drop_last()[i] == s[i]);
                }
            }
        }
    }
}

/// A trim leaves nothing just where there is nothing but white space.
pub proof fn law_trim_of_white_space(s: Seq<char>)
    ensures
        trimmed(s).len() == 0 <==> is_blank(s),
{
    let f = cut_front(s, Edge::White);
    lemma_all_of_it_is_cut(s);
    lemma_all_of_it_is_cut(f);
    lemma_cut_front(s, Edge::White);
    if is_blank(s) {
        let none = Seq::<char>::empty();
        law_trim_cuts_white_space(s, none, none);
        assert(s + none + none =~= s);
    }
    if trimmed(s).len() == 0 && f.len() > 0 {
        assert(is_white(f[0]));
    }
}

/// The texts of a list stand in the order of the list.
pub proof fn law_texts_of_a_list(list: Seq<String>, i: int)
    ensures
        texts(list).len() == list.len(),
        0 <= i < list.len() ==> texts(list)[i] == list[i]@,
{
}

/// Where there is no pattern to look for, nothing is replaced.
pub proof fn law_no_pattern_replaces_nothing(s: Seq<char>, by: Seq<char>)
    ensures
        replaced(s, Seq::empty(), by) == s,
{
}

} // verus!
