//! Source text as lines: splitting, trimming, tokens, and brace counts.
use vstd::prelude::*;

verus! {

/// The characters of `s`, in order.
pub(crate) fn chars_of(s: &str) -> (r: Vec<char>)
    ensures
        r@ == s@,
{
    broadcast use vstd::string::axiom_spec_iter, vstd::string::next_postcondition;

    let mut r: Vec<char> = Vec::new();
    let mut it = s.chars();
    loop
        invariant
            r@ + vstd::std_specs::iter::IteratorSpec::remaining(&it) == s@,
            vstd::std_specs::iter::IteratorSpec::obeys_prophetic_iter_laws(&it),
            vstd::std_specs::iter::IteratorSpec::decrease(&it) is Some,
        ensures
            r@ == s@,
        decreases vstd::std_specs::iter::IteratorSpec::decrease(&it)->0,
    {
        match it.next() {
            Some(c) => {
                r.push(c);
            },
            None => {
                assert(vstd::std_specs::iter::IteratorSpec::remaining(&it).len() == 0);
                assert(r@ =~= s@);
                break;
            },
        }
    }
    r
}

/// The string made of the characters `cs`, in order.
///
/// Trusted: collecting `char`s into a `String` appends each of them in turn.
#[verifier::external_body]
pub(crate) fn string_from_chars(cs: &[char]) -> (r: String)
    ensures
        r@ == cs@,
{
    cs.iter().collect()
}

/// Whether two character sequences are equal.
pub fn chars_equal(a: &Vec<char>, b: &Vec<char>) -> (r: bool)
    ensures
        r == (a@ == b@),
{
    if a.len() != b.len() {
        return false;
    }
    let mut i: usize = 0;
    while i < a.len()
        invariant
            a@.len() == b@.len(),
            i <= a@.len(),
            forall|j: int| 0 <= j < i ==> a@[j] == b@[j],
        decreases a@.len() - i,
    {
        if a[i] != b[i] {
            return false;
        }
        i = i + 1;
    }
    assert(a@ =~= b@);
    true
}

/// Whether the characters `w` spell the literal `kw`.
pub fn word_is(w: &Vec<char>, kw: &str) -> (r: bool)
    ensures
        r == (w@ == kw@),
{
    let n = kw.unicode_len();
    if w.len() != n {
        return false;
    }
    let mut i: usize = 0;
    while i < n
        invariant
            w@.len() == n,
            n == kw@.len(),
            i <= n,
            forall|j: int| 0 <= j < i ==> w@[j] == kw@[j],
        decreases n - i,
    {
        if w[i] != kw.get_char(i) {
            return false;
        }
        i = i + 1;
    }
    assert(w@ =~= kw@);
    true
}

// ---------------------------------------------------------------- lines

/// The lines of `s`: the pieces between `'\n'` characters, in order. There is
/// always at least one line (the empty text has one empty line).
pub open spec fn lines_of(s: Seq<char>) -> Seq<Seq<char>>
    decreases s.len(),
{
    if s.len() == 0 {
        seq![Seq::<char>::empty()]
    } else {
        let prev = lines_of(s.drop_last());
        if s.last() == '\n' {
            prev.push(Seq::<char>::empty())
        } else {
            prev.update(prev.len() - 1, prev.last().push(s.last()))
        }
    }
}

pub open spec fn seqs_view(v: Seq<Vec<char>>) -> Seq<Seq<char>> {
    v.map_values(|l: Vec<char>| l@)
}

/// Total number of characters in `ls`.
pub open spec fn total_len(ls: Seq<Seq<char>>) -> nat
    decreases ls.len(),
{
    if ls.len() == 0 {
        0
    } else {
        total_len(ls.drop_last()) + ls.last().len()
    }
}

pub proof fn lemma_lines_len(s: Seq<char>)
    ensures
        lines_of(s).len() >= 1,
        total_len(lines_of(s)) + lines_of(s).len() == s.len() + 1,
    decreases s.len(),
{
    if s.len() > 0 {
        let prev = lines_of(s.drop_last());
        lemma_lines_len(s.drop_last());
        if s.last() == '\n' {
            let p2 = prev.push(Seq::<char>::empty());
            assert(p2.drop_last() =~= prev);
            assert(total_len(p2) == total_len(p2.drop_last()) + p2.last().len());
        } else {
            let up = prev.update(prev.len() - 1, prev.last().push(s.last()));
            assert(up.drop_last() =~= prev.drop_last());
            assert(total_len(up) == total_len(up.drop_last()) + up.last().len());
            assert(total_len(prev) == total_len(prev.drop_last()) + prev.last().len());
        }
    } else {
        let e = seq![Seq::<char>::empty()];
        assert(e.drop_last() =~= Seq::<Seq<char>>::empty());
        assert(total_len(e) == total_len(e.drop_last()) + e.last().len());
    }
}

pub proof fn lemma_total_len_take(ls: Seq<Seq<char>>, k: int)
    requires
        0 <= k <= ls.len(),
    ensures
        total_len(ls.take(k)) <= total_len(ls),
        k < ls.len() ==> total_len(ls.take(k + 1)) == total_len(ls.take(k)) + ls[k].len(),
    decreases ls.len() - k,
{
    if k < ls.len() {
        assert(ls.take(k + 1).drop_last() =~= ls.take(k));
        lemma_total_len_take(ls, k + 1);
    } else {
        assert(ls.take(k) =~= ls);
    }
}

/// Splits the characters into lines at each `'\n'`.
pub fn split_into_lines(s: &Vec<char>) -> (r: Vec<Vec<char>>)
    ensures
        seqs_view(r@) == lines_of(s@),
{
    let mut lines: Vec<Vec<char>> = Vec::new();
    let mut cur: Vec<char> = Vec::new();
    let mut i: usize = 0;
    assert(s@.take(0) =~= Seq::<char>::empty());
    assert(seqs_view(lines@).push(cur@) =~= lines_of(s@.take(0)));
    while i < s.len()
        invariant
            i <= s@.len(),
            seqs_view(lines@).push(cur@) == lines_of(s@.take(i as int)),
        decreases s@.len() - i,
    {
        let c = s[i];
        let ghost prev = lines_of(s@.take(i as int));
        assert(s@.take(i + 1).drop_last() =~= s@.take(i as int));
        if c == '\n' {
            let ghost old_lines = lines@;
            lines.push(cur);
            cur = Vec::new();
            assert(seqs_view(lines@) =~= seqs_view(old_lines).push(prev.last()));
            assert(seqs_view(lines@).push(cur@) =~= prev.push(Seq::<char>::empty()));
        } else {
            let ghost old_cur = cur@;
            cur.push(c);
            assert(seqs_view(lines@).push(cur@) =~= prev.update(
                prev.len() - 1,
                prev.last().push(c),
            ));
        }
        i = i + 1;
    }
    assert(s@.take(s@.len() as int) =~= s@);
    let ghost before = lines@;
    lines.push(cur);
    assert(seqs_view(lines@) =~= seqs_view(before).push(cur@));
    lines
}

// ---------------------------------------------------------------- trimming

pub open spec fn is_space(c: char) -> bool {
    c == ' ' || c == '\t' || c == '\r'
}

/// The index of the first character at or after `i` that is not a space.
pub open spec fn lead_from(l: Seq<char>, i: int) -> int
    decreases l.len() - i,
{
    if 0 <= i < l.len() && is_space(l[i]) {
        lead_from(l, i + 1)
    } else {
        i
    }
}

/// The end of `l[..j]` once trailing spaces are dropped.
pub open spec fn trail_from(l: Seq<char>, j: int) -> int
    decreases j,
{
    if 0 < j <= l.len() && is_space(l[j - 1]) {
        trail_from(l, j - 1)
    } else {
        j
    }
}

/// `l` without its leading and trailing spaces.
pub open spec fn trimmed(l: Seq<char>) -> Seq<char> {
    let a = lead_from(l, 0);
    let b = trail_from(l, l.len() as int);
    if b <= a {
        Seq::<char>::empty()
    } else {
        l.subrange(a, b)
    }
}

/// Number of leading spaces of `l`.
pub open spec fn indent_of(l: Seq<char>) -> nat {
    lead_from(l, 0) as nat
}

fn is_space_char(c: char) -> (r: bool)
    ensures
        r == is_space(c),
{
    c == ' ' || c == '\t' || c == '\r'
}

/// Leading space count and trimmed text of a line.
pub fn trim_line(l: &Vec<char>) -> (r: (usize, Vec<char>))
    ensures
        r.0 == indent_of(l@),
        r.1@ == trimmed(l@),
{
    let mut a: usize = 0;
    while a < l.len() && is_space_char(l[a])
        invariant
            a <= l@.len(),
            lead_from(l@, 0) == lead_from(l@, a as int),
        decreases l@.len() - a,
    {
        a = a + 1;
    }
    let mut b: usize = l.len();
    while b > 0 && is_space_char(l[b - 1])
        invariant
            b <= l@.len(),
            trail_from(l@, l@.len() as int) == trail_from(l@, b as int),
        decreases b,
    {
        b = b - 1;
    }
    let mut text: Vec<char> = Vec::new();
    if a < b {
        let mut k: usize = a;
        while k < b
            invariant
                a <= k <= b <= l@.len(),
                text@ == l@.subrange(a as int, k as int),
            decreases b - k,
        {
            text.push(l[k]);
            k = k + 1;
            assert(text@ =~= l@.subrange(a as int, k as int));
        }
    }
    assert(text@ =~= trimmed(l@));
    (a, text)
}

// ---------------------------------------------------------------- tokens

/// A token of a line: a word (identifier, keyword or number) or one
/// punctuation character.
#[derive(Debug)]
pub enum Tok {
    Word(Vec<char>),
    Punct(u32),
}

/// The value of a [`Tok`].
pub enum TokV {
    Word(Seq<char>),
    Punct(u32),
}

impl View for Tok {
    type V = TokV;

    open spec fn view(&self) -> TokV {
        match self {
            Tok::Word(w) => TokV::Word(w@),
            Tok::Punct(c) => TokV::Punct(*c),
        }
    }
}

pub open spec fn toks_view(t: Seq<Tok>) -> Seq<TokV> {
    t.map_values(|x: Tok| x@)
}

pub proof fn lemma_toks_view_push(s: Seq<Tok>, t: Tok)
    ensures
        toks_view(s.push(t)) == toks_view(s).push(t@),
{
    assert(toks_view(s.push(t)) =~= toks_view(s).push(t@));
}

pub open spec fn is_word_char(c: char) -> bool {
    ('a' <= c && c <= 'z') || ('A' <= c && c <= 'Z') || ('0' <= c && c <= '9') || c == '_'
        || c == '$' || c >= '\u{80}'
}

fn is_word_char_exec(c: char) -> (r: bool)
    ensures
        r == is_word_char(c),
{
    ('a' <= c && c <= 'z') || ('A' <= c && c <= 'Z') || ('0' <= c && c <= '9') || c == '_'
        || c == '$' || c >= '\u{80}'
}

/// The end of the run of word characters that starts at `i`.
pub open spec fn word_end(l: Seq<char>, i: int) -> int
    decreases l.len() - i,
{
    if 0 <= i < l.len() && is_word_char(l[i]) {
        word_end(l, i + 1)
    } else {
        i
    }
}

pub proof fn lemma_word_end_range(l: Seq<char>, i: int)
    requires
        0 <= i <= l.len(),
    ensures
        i <= word_end(l, i) <= l.len(),
        forall|j: int| i <= j < word_end(l, i) ==> is_word_char(#[trigger] l[j]),
    decreases l.len() - i,
{
    if i < l.len() && is_word_char(l[i]) {
        lemma_word_end_range(l, i + 1);
    }
}

/// The tokens of `l` from index `i` on; spaces separate tokens and are dropped.
pub open spec fn tokens_from(l: Seq<char>, i: int) -> Seq<TokV>
    decreases l.len() - i,
{
    if i < 0 || i >= l.len() {
        Seq::<TokV>::empty()
    } else if is_space(l[i]) {
        tokens_from(l, i + 1)
    } else if is_word_char(l[i]) {
        let e = word_end(l, i + 1);
        if e <= i || e > l.len() {
            Seq::<TokV>::empty()
        } else {
            seq![TokV::Word(l.subrange(i, e))] + tokens_from(l, e)
        }
    } else {
        seq![TokV::Punct(l[i] as u32)] + tokens_from(l, i + 1)
    }
}

pub proof fn lemma_tokens_punct(l: Seq<char>, i: int, c: char)
    requires
        0 <= i < l.len(),
        l[i] == c,
        !is_space(c),
        !is_word_char(c),
    ensures
        tokens_from(l, i) == seq![TokV::Punct(c as u32)] + tokens_from(l, i + 1),
{
}

pub proof fn lemma_tokens_word(l: Seq<char>, i: int, c: char)
    requires
        0 <= i < l.len(),
        l[i] == c,
        !is_space(c),
        is_word_char(c),
    ensures
        i < word_end(l, i + 1) <= l.len(),
        tokens_from(l, i) == seq![TokV::Word(l.subrange(i, word_end(l, i + 1)))] + tokens_from(
            l,
            word_end(l, i + 1),
        ),
{
    lemma_word_end_range(l, i + 1);
}

pub proof fn lemma_tokens_space(l: Seq<char>, i: int, c: char)
    requires
        0 <= i < l.len(),
        l[i] == c,
        is_space(c),
    ensures
        tokens_from(l, i) == tokens_from(l, i + 1),
{
}

/// One more token moves from the unread rest to the output.
pub proof fn lemma_tokens_step(done: Seq<TokV>, l: Seq<char>, i: int, t: TokV, next: int)
    requires
        tokens_from(l, i) == seq![t] + tokens_from(l, next),
    ensures
        done.push(t) + tokens_from(l, next) == done + tokens_from(l, i),
{
    assert(done.push(t) + tokens_from(l, next) =~= done + (seq![t] + tokens_from(l, next)));
}

/// The tokens of a line.
pub open spec fn tokens_of(l: Seq<char>) -> Seq<TokV> {
    tokens_from(l, 0)
}

/// Splits a line into tokens.
#[verifier::loop_isolation(false)]
pub fn tokenize(l: &Vec<char>) -> (r: Vec<Tok>)
    ensures
        toks_view(r@) == tokens_of(l@),
{
    let mut out: Vec<Tok> = Vec::new();
    let mut i: usize = 0;
    while i < l.len()
        invariant
            i <= l@.len(),
            toks_view(out@) + tokens_from(l@, i as int) == tokens_of(l@),
        decreases l@.len() - i,
    {
        let c = l[i];
        let ghost before = out@;
        if is_space_char(c) {
            proof {
                lemma_tokens_space(l@, i as int, c);
            }
            i = i + 1;
            assert(toks_view(out@) + tokens_from(l@, i as int) == tokens_of(l@));
        } else if is_word_char_exec(c) {
            let mut e: usize = i + 1;
            proof {
                lemma_word_end_range(l@, i + 1);
            }
            while e < l.len() && is_word_char_exec(l[e])
                invariant
                    i < e <= l@.len(),
                    word_end(l@, i + 1) == word_end(l@, e as int),
                decreases l@.len() - e,
            {
                e = e + 1;
            }
            assert(word_end(l@, e as int) == e);
            let mut w: Vec<char> = Vec::new();
            let mut k: usize = i;
            while k < e
                invariant
                    i <= k <= e <= l@.len(),
                    w@ == l@.subrange(i as int, k as int),
                decreases e - k,
            {
                w.push(l[k]);
                k = k + 1;
                assert(w@ =~= l@.subrange(i as int, k as int));
            }
            let t = Tok::Word(w);
            let ghost gt = t;
            out.push(t);
            proof {
                lemma_toks_view_push(before, gt);
                lemma_tokens_word(l@, i as int, c);
                assert(gt@ == TokV::Word(l@.subrange(i as int, e as int)));
                lemma_tokens_step(toks_view(before), l@, i as int, gt@, e as int);
            }
            i = e;
            assert(toks_view(out@) + tokens_from(l@, i as int) == tokens_of(l@));
        } else {
            let t = Tok::Punct(c as u32);
            let ghost gt = t;
            out.push(t);
            proof {
                lemma_toks_view_push(before, gt);
                lemma_tokens_punct(l@, i as int, c);
                assert(gt@ == TokV::Punct(c as u32));
                lemma_tokens_step(toks_view(before), l@, i as int, gt@, i + 1);
            }
            i = i + 1;
            assert(toks_view(out@) + tokens_from(l@, i as int) == tokens_of(l@));
        }
    }
    assert(toks_view(out@) + tokens_from(l@, i as int) =~= toks_view(out@));
    out
}

// ---------------------------------------------------------------- braces

/// Where the brace counter stands: in code, or inside a double- or
/// single-quoted literal.
pub enum LexState {
    Code,
    InDouble,
    InSingle,
}

/// Opening and closing braces of `l` from index `i` on, starting in state
/// `st`; braces inside quoted literals and after `//` are not counted.
pub open spec fn braces_from(l: Seq<char>, i: int, st: LexState) -> (nat, nat)
    decreases l.len() + 2 - i,
{
    if i < 0 || i >= l.len() {
        (0, 0)
    } else {
        let c = l[i];
        match st {
            LexState::Code => {
                if c == '/' && i + 1 < l.len() && l[i + 1] == '/' {
                    (0, 0)
                } else if c == '"' {
                    braces_from(l, i + 1, LexState::InDouble)
                } else if c == '\'' {
                    braces_from(l, i + 1, LexState::InSingle)
                } else {
                    let r = braces_from(l, i + 1, LexState::Code);
                    if c == '{' {
                        (r.0 + 1, r.1)
                    } else if c == '}' {
                        (r.0, r.1 + 1)
                    } else {
                        r
                    }
                }
            },
            LexState::InDouble => {
                if c == '\\' {
                    braces_from(l, i + 2, LexState::InDouble)
                } else if c == '"' {
                    braces_from(l, i + 1, LexState::Code)
                } else {
                    braces_from(l, i + 1, LexState::InDouble)
                }
            },
            LexState::InSingle => {
                if c == '\\' {
                    braces_from(l, i + 2, LexState::InSingle)
                } else if c == '\'' {
                    braces_from(l, i + 1, LexState::Code)
                } else {
                    braces_from(l, i + 1, LexState::InSingle)
                }
            },
        }
    }
}

/// Opening and closing braces of a line.
pub open spec fn braces_of(l: Seq<char>) -> (nat, nat) {
    braces_from(l, 0, LexState::Code)
}

pub proof fn lemma_braces_bound(l: Seq<char>, i: int, st: LexState)
    requires
        0 <= i,
    ensures
        braces_from(l, i, st).0 + braces_from(l, i, st).1 <= if i <= l.len() {
            l.len() - i
        } else {
            0
        },
    decreases l.len() + 2 - i,
{
    if i < l.len() {
        let c = l[i];
        match st {
            LexState::Code => {
                if c == '/' && i + 1 < l.len() && l[i + 1] == '/' {
                } else if c == '"' {
                    lemma_braces_bound(l, i + 1, LexState::InDouble);
                } else if c == '\'' {
                    lemma_braces_bound(l, i + 1, LexState::InSingle);
                } else {
                    lemma_braces_bound(l, i + 1, LexState::Code);
                }
            },
            LexState::InDouble => {
                if c == '\\' {
                    lemma_braces_bound(l, i + 2, LexState::InDouble);
                } else if c == '"' {
                    lemma_braces_bound(l, i + 1, LexState::Code);
                } else {
                    lemma_braces_bound(l, i + 1, LexState::InDouble);
                }
            },
            LexState::InSingle => {
                if c == '\\' {
                    lemma_braces_bound(l, i + 2, LexState::InSingle);
                } else if c == '\'' {
                    lemma_braces_bound(l, i + 1, LexState::Code);
                } else {
                    lemma_braces_bound(l, i + 1, LexState::InSingle);
                }
            },
        }
    }
}

/// Counts the opening and closing braces of a line.
pub fn count_braces(l: &Vec<char>) -> (r: (usize, usize))
    ensures
        r.0 == braces_of(l@).0,
        r.1 == braces_of(l@).1,
        r.0 + r.1 <= l@.len(),
{
    let mut opens: usize = 0;
    let mut closes: usize = 0;
    let mut st = LexState::Code;
    let mut i: usize = 0;
    let n = l.len();
    proof {
        lemma_braces_bound(l@, 0, LexState::Code);
    }
    while i < n
        invariant
            n == l@.len(),
            i <= n,
            opens + braces_from(l@, i as int, st).0 == braces_of(l@).0,
            closes + braces_from(l@, i as int, st).1 == braces_of(l@).1,
            braces_of(l@).0 + braces_of(l@).1 <= n,
        decreases n + 2 - i,
    {
        let c = l[i];
        match st {
            LexState::Code => {
                if c == '/' && i + 1 < n && l[i + 1] == '/' {
                    proof {
                        lemma_braces_bound(l@, i as int, st);
                    }
                    i = n;
                } else if c == '"' {
                    st = LexState::InDouble;
                    i = i + 1;
                } else if c == '\'' {
                    st = LexState::InSingle;
                    i = i + 1;
                } else {
                    if c == '{' {
                        opens = opens + 1;
                    } else if c == '}' {
                        closes = closes + 1;
                    }
                    i = i + 1;
                }
            },
            LexState::InDouble => {
                if c == '\\' {
                    assert(braces_from(l@, i + 2, st) == braces_from(
                        l@,
                        if n - i >= 2 {
                            i + 2
                        } else {
                            n as int
                        },
                        st,
                    ));
                    i = if n - i >= 2 {
                        i + 2
                    } else {
                        n
                    };
                } else if c == '"' {
                    st = LexState::Code;
                    i = i + 1;
                } else {
                    i = i + 1;
                }
            },
            LexState::InSingle => {
                if c == '\\' {
                    assert(braces_from(l@, i + 2, st) == braces_from(
                        l@,
                        if n - i >= 2 {
                            i + 2
                        } else {
                            n as int
                        },
                        st,
                    ));
                    i = if n - i >= 2 {
                        i + 2
                    } else {
                        n
                    };
                } else if c == '\'' {
                    st = LexState::Code;
                    i = i + 1;
                } else {
                    i = i + 1;
                }
            },
        }
    }
    (opens, closes)
}

// ---------------------------------------------------------------- line facts

/// What the item scanner reads of one line.
pub struct LineInfo {
    pub text: Vec<char>,
    pub toks: Vec<Tok>,
    pub indent: usize,
    pub opens: usize,
    pub closes: usize,
}

/// The value of a [`LineInfo`].
pub struct LineV {
    pub text: Seq<char>,
    pub toks: Seq<TokV>,
    pub indent: nat,
    pub opens: nat,
    pub closes: nat,
}

impl View for LineInfo {
    type V = LineV;

    open spec fn view(&self) -> LineV {
        LineV {
            text: self.text@,
            toks: toks_view(self.toks@),
            indent: self.indent as nat,
            opens: self.opens as nat,
            closes: self.closes as nat,
        }
    }
}

/// The facts of line `l`.
pub open spec fn line_v(l: Seq<char>) -> LineV {
    LineV {
        text: trimmed(l),
        toks: tokens_of(l),
        indent: indent_of(l),
        opens: braces_of(l).0,
        closes: braces_of(l).1,
    }
}

/// The facts of every line of `s`.
pub open spec fn lines_v(s: Seq<char>) -> Seq<LineV> {
    lines_of(s).map_values(|l: Seq<char>| line_v(l))
}

pub open spec fn infos_view(v: Seq<LineInfo>) -> Seq<LineV> {
    v.map_values(|x: LineInfo| x@)
}

/// Computes the facts of every line of `s`.
pub fn line_infos(s: &Vec<char>) -> (r: Vec<LineInfo>)
    ensures
        infos_view(r@) == lines_v(s@),
        forall|k: int|
            0 <= k < r@.len() ==> (#[trigger] r@[k]).opens + r@[k].closes <= lines_of(s@)[k].len(),
        total_len(lines_of(s@)) <= s@.len(),
{
    let raw = split_into_lines(s);
    proof {
        lemma_lines_len(s@);
    }
    let mut out: Vec<LineInfo> = Vec::new();
    let mut k: usize = 0;
    while k < raw.len()
        invariant
            k <= raw@.len(),
            seqs_view(raw@) == lines_of(s@),
            infos_view(out@) == lines_v(s@).take(k as int),
            forall|j: int|
                0 <= j < out@.len() ==> (#[trigger] out@[j]).opens + out@[j].closes
                    <= lines_of(s@)[j].len(),
            out@.len() == k,
        decreases raw@.len() - k,
    {
        let l = &raw[k];
        let (indent, text) = trim_line(l);
        let toks = tokenize(l);
        let (opens, closes) = count_braces(l);
        let ghost before = out@;
        out.push(LineInfo { text, toks, indent, opens, closes });
        assert(seqs_view(raw@)[k as int] == raw@[k as int]@);
        assert(infos_view(out@) =~= lines_v(s@).take(k + 1));
        k = k + 1;
    }
    assert(lines_v(s@).take(k as int) =~= lines_v(s@));
    out
}

} // verus!
