use crate::error::{Error, Result};
use crate::glob::tokenizer::{literal_end, lemma_literal_end, Token, TokenSet, Tokenizer};
use vstd::prelude::*;

verus! {

/// Whether `c` has a meaning of its own in a regular expression, and so is escaped to stand for
/// itself.
pub open spec fn is_meta(c: char) -> bool {
    c == '\\' || c == '.' || c == '+' || c == '*' || c == '?' || c == '(' || c == ')' || c == '|'
        || c == '[' || c == ']' || c == '{' || c == '}' || c == '^' || c == '$' || c == '#' || c
        == '&' || c == '-' || c == '~'
}

/// The regular expression that matches the character `c` alone.
pub open spec fn escape_char(c: char) -> Seq<char> {
    if is_meta(c) {
        seq!['\\', c]
    } else {
        seq![c]
    }
}

/// One character other than `/`.
pub open spec fn one_but_slash() -> Seq<char> {
    seq!['[', '^', '/', ']']
}

/// Any run of characters other than `/`.
pub open spec fn run_but_slash() -> Seq<char> {
    one_but_slash() + seq!['*']
}

/// The whole-string form of a regular expression.
pub open spec fn anchored(r: Seq<char>) -> Seq<char> {
    seq!['^'] + r + seq!['$']
}

/// One item of a character class: a character, or the range between two characters.
pub open spec fn range_item(a: char, b: char) -> Seq<char> {
    if a == b {
        escape_char(a)
    } else if (a as u32) < (b as u32) {
        escape_char(a) + seq!['-'] + escape_char(b)
    } else {
        escape_char(b) + seq!['-'] + escape_char(a)
    }
}

pub open spec fn prepend_some(pre: Seq<char>, rest: Option<Seq<char>>) -> Option<Seq<char>> {
    match rest {
        Some(r) => Some(pre + r),
        None => None,
    }
}

/// The items of the character class written `[t]`; `None` where a `-` has no upper bound.
pub open spec fn class_items(t: Seq<char>) -> Option<Seq<char>>
    decreases t.len(),
{
    if t.len() == 0 {
        Some(seq![])
    } else if t.len() >= 2 && t[1] == '-' {
        if t.len() >= 3 {
            prepend_some(range_item(t[0], t[2]), class_items(t.skip(3)))
        } else {
            None
        }
    } else {
        prepend_some(escape_char(t[0]), class_items(t.skip(1)))
    }
}

/// The kinds that end a character class.
pub open spec fn class_close() -> TokenSet {
    TokenSet { square_end: true, ..TokenSet::empty_spec() }
}

/// The kinds that end a run of literal characters in a pattern.
pub open spec fn literal_break() -> TokenSet {
    TokenSet { star: true, question: true, square_start: true, separator: true, ..TokenSet::empty_spec() }
}

/// Whether the pattern component that runs through position `i` of `s` ends before `i`: at the
/// end, at a `/`, or at a `**`.
pub open spec fn component_ends(s: Seq<char>, i: int) -> bool {
    i < 0 || i >= s.len() || s[i] == '/' || (s[i] == '*' && i + 1 < s.len() && s[i + 1] == '*')
}

/// The regular expression for the item of a pattern component at `i`, and where the next item
/// starts; `None` for a class that is empty, unterminated or ends in a `-`.
pub open spec fn piece(s: Seq<char>, i: int) -> Option<(Seq<char>, int)> {
    if s[i] == '*' {
        Some((run_but_slash(), i + 1))
    } else if s[i] == '?' {
        Some((one_but_slash(), i + 1))
    } else if s[i] == '[' {
        let e = literal_end(s, i + 1, class_close());
        if e >= s.len() || e == i + 1 {
            None
        } else {
            match class_items(s.subrange(i + 1, e)) {
                Some(b) => Some((seq!['['] + b + seq![']'], e + 1)),
                None => None,
            }
        }
    } else {
        Some((escape_char(s[i]), i + 1))
    }
}

/// The regular expression `acc` followed by those of the items from `i` to the end of the
/// component, and where the component ends; `None` if an item is malformed.
pub open spec fn run(s: Seq<char>, i: int, acc: Seq<char>) -> Option<(Seq<char>, int)>
    decreases s.len() - i,
{
    if component_ends(s, i) {
        Some((acc, i))
    } else {
        match piece(s, i) {
            None => None,
            Some((f, j)) => if j > i {
                run(s, j, acc + f)
            } else {
                None
            },
        }
    }
}

/// A segment of a parsed glob, as a value.
pub enum SegmentView {
    Pattern(Seq<char>),
    Anything,
    Separator,
}

/// The segment that starts at `i` and where the next one starts: `Some((None, i))` at the end,
/// `None` if the pattern is malformed there.
pub open spec fn segment_at(s: Seq<char>, i: int) -> Option<(Option<SegmentView>, int)> {
    if i < 0 || i >= s.len() {
        Some((None, i))
    } else {
        match run(s, i, seq![]) {
            None => None,
            Some((r, j)) => if j > i {
                Some((Some(SegmentView::Pattern(anchored(r))), j))
            } else if s[i] == '/' {
                Some((Some(SegmentView::Separator), i + 1))
            } else {
                Some((Some(SegmentView::Anything), i + 2))
            },
        }
    }
}

/// The segments of `s` from position `i` on; `None` if the pattern is malformed.
pub open spec fn segments_from(s: Seq<char>, i: int) -> Option<Seq<SegmentView>>
    decreases s.len() - i,
{
    if i < 0 || i >= s.len() {
        Some(seq![])
    } else if segment_at(s, i) is None {
        None
    } else {
        let (seg, j) = segment_at(s, i)->Some_0;
        if seg is None || j <= i || j > s.len() {
            None
        } else {
            match segments_from(s, j) {
                Some(rest) => Some(seq![seg->Some_0] + rest),
                None => None,
            }
        }
    }
}

/// A parsed glob, as a value.
pub struct AstView {
    pub starts_negated: bool,
    pub segments: Seq<SegmentView>,
}

/// What a glob parses to: a leading `!` negates it, and the rest is read as segments.
pub open spec fn parse_spec(s: Seq<char>) -> Option<AstView> {
    let neg = s.len() > 0 && s[0] == '!';
    match segments_from(s, if neg { 1 } else { 0 }) {
        Some(segs) => Some(AstView { starts_negated: neg, segments: segs }),
        None => None,
    }
}

pub uninterp spec fn regex_accepts(pattern: Seq<char>, text: Seq<char>) -> bool;

/// Relies on regex::Regex::new and Regex::is_match: whether `text` holds a match of the regular
/// expression `pattern`. The answer depends on the two strings alone.
#[verifier::external_body]
fn regex_is_match(pattern: &str, text: &str) -> (r: bool)
    ensures
        r == regex_accepts(pattern@, text@),
{
    match regex::Regex::new(pattern) {
        Ok(re) => re.is_match(text),
        Err(_) => false,
    }
}

/// Relies on FromIterator<char> for String: the characters of `v`, in order.
#[verifier::external_body]
fn string_of(v: &Vec<char>) -> (r: String)
    ensures
        r@ == v@,
{
    v.iter().collect()
}

/// A regular expression over the characters of one path component.
#[derive(Debug)]
pub struct Pattern {
    source: String,
}

impl View for Pattern {
    type V = Seq<char>;

    closed spec fn view(&self) -> Seq<char> {
        self.source@
    }
}

impl Pattern {
    /// The text of the regular expression.
    pub fn as_str(&self) -> (r: &str)
        ensures
            r@ == self@,
    {
        self.source.as_str()
    }

    /// Whether `text` matches the regular expression.
    pub fn is_match(&self, text: &str) -> (r: bool)
        ensures
            r == regex_accepts(self@, text@),
    {
        regex_is_match(self.source.as_str(), text)
    }
}

/// A segment of a parsed glob.
#[derive(Debug)]
pub enum Segment {
    Pattern(Pattern),
    Anything,
    Separator,
}

impl View for Segment {
    type V = SegmentView;

    open spec fn view(&self) -> SegmentView {
        match self {
            Segment::Pattern(p) => SegmentView::Pattern(p@),
            Segment::Anything => SegmentView::Anything,
            Segment::Separator => SegmentView::Separator,
        }
    }
}

/// A parsed glob.
#[derive(Debug)]
pub struct Ast {
    pub starts_negated: bool,
    pub segments: Vec<Segment>,
}

impl View for Ast {
    type V = AstView;

    open spec fn view(&self) -> AstView {
        AstView {
            starts_negated: self.starts_negated,
            segments: self.segments@.map_values(|g: Segment| g@),
        }
    }
}

/// Appends the regular expression for the character `c` to `out`.
fn push_escaped(out: &mut Vec<char>, c: char)
    ensures
        final(out)@ == old(out)@ + escape_char(c),
{
    if c == '\\' || c == '.' || c == '+' || c == '*' || c == '?' || c == '(' || c == ')' || c
        == '|' || c == '[' || c == ']' || c == '{' || c == '}' || c == '^' || c == '$' || c == '#'
        || c == '&' || c == '-' || c == '~' {
        out.push('\\');
    }
    out.push(c);
    proof {
        assert(final(out)@ =~= old(out)@ + escape_char(c));
    }
}

/// One character other than `/`.
fn question() -> (r: Vec<char>)
    ensures
        r@ == one_but_slash(),
{
    let r = vec!['[', '^', '/', ']'];
    proof {
        assert(r@ =~= one_but_slash());
    }
    r
}

/// Any run of characters other than `/`.
fn star() -> (r: Vec<char>)
    ensures
        r@ == run_but_slash(),
{
    let mut r = question();
    r.push('*');
    proof {
        assert(r@ =~= run_but_slash());
    }
    r
}

/// Appends the items of the character class written `[text]` to `out`.
fn class_body(text: &Vec<char>, out: &mut Vec<char>) -> (ok: bool)
    ensures
        ok == (class_items(text@) is Some),
        ok ==> final(out)@ == old(out)@ + class_items(text@)->Some_0,
{
    let ghost start = out@;
    let mut k: usize = 0;
    proof {
        assert(text@.skip(0) =~= text@);
        assert(out@.subrange(start.len() as int, out@.len() as int) =~= Seq::<char>::empty());
        match class_items(text@) {
            Some(r) => assert(Seq::<char>::empty() + r =~= r),
            None => {},
        }
    }
    while k < text.len()
        invariant
            k <= text@.len(),
            class_items(text@) == prepend_some(out@.subrange(start.len() as int, out@.len() as int), class_items(text@.skip(k as int))),
            out@.len() >= start.len(),
            out@.subrange(0, start.len() as int) == start,
        decreases text@.len() - k,
    {
        let ghost t = text@.skip(k as int);
        let ghost before = out@;
        if k + 1 < text.len() && text[k + 1] == '-' {
            if k + 2 >= text.len() {
                return false;
            }
            let a = text[k];
            let b = text[k + 2];
            if a == b {
                push_escaped(out, a);
            } else if (a as u32) < (b as u32) {
                push_escaped(out, a);
                out.push('-');
                push_escaped(out, b);
            } else {
                push_escaped(out, b);
                out.push('-');
                push_escaped(out, a);
            }
            proof {
                assert(t.skip(3) =~= text@.skip(k + 3));
                assert(out@.subrange(start.len() as int, out@.len() as int) =~= before.subrange(start.len() as int, before.len() as int) + range_item(a, b));
                assert(out@.subrange(0, start.len() as int) =~= before.subrange(0, start.len() as int));
            }
            k = k + 3;
        } else {
            let a = text[k];
            push_escaped(out, a);
            proof {
                assert(t.skip(1) =~= text@.skip(k + 1));
                assert(out@.subrange(start.len() as int, out@.len() as int) =~= before.subrange(start.len() as int, before.len() as int) + escape_char(a));
                assert(out@.subrange(0, start.len() as int) =~= before.subrange(0, start.len() as int));
            }
            k = k + 1;
        }
    }
    proof {
        assert(text@.skip(k as int) =~= Seq::<char>::empty());
        assert(out@ =~= start + out@.subrange(start.len() as int, out@.len() as int));
    }
    true
}


proof fn lemma_piece(s: Seq<char>, i: int)
    requires
        0 <= i < s.len(),
    ensures
        piece(s, i) matches Some((f, j)) ==> i < j <= s.len() && f.len() > 0,
{
    if s[i] == '[' {
        lemma_literal_end(s, i + 1, class_close());
    }
}

proof fn lemma_run(s: Seq<char>, i: int, acc: Seq<char>)
    requires
        0 <= i <= s.len(),
    ensures
        run(s, i, acc) matches Some((r, j)) ==> {
            &&& i <= j <= s.len()
            &&& j == i ==> r == acc && component_ends(s, i)
            &&& j > i ==> r.len() > acc.len()
        },
    decreases s.len() - i,
{
    if !component_ends(s, i) {
        lemma_piece(s, i);
        if let Some((f, j)) = piece(s, i) {
            lemma_run(s, j, acc + f);
        }
    }
}

proof fn lemma_segment_at(s: Seq<char>, i: int)
    requires
        0 <= i < s.len(),
    ensures
        segment_at(s, i) matches Some((seg, j)) ==> seg is Some && i < j <= s.len(),
{
    lemma_run(s, i, seq![]);
}

/// Reads the rest of a character class, after its `[`, and gives its regular expression.
fn parse_charset(tokens: &mut Tokenizer) -> (r: Result<Vec<char>>)
    requires
        old(tokens).wf(),
    ensures
        final(tokens).wf(),
        final(tokens).chars() == old(tokens).chars(),
        final(tokens).source() == old(tokens).source(),
        ({
            let s = old(tokens).chars();
            let p = old(tokens).pos();
            let e = literal_end(s, p, class_close());
            if e >= s.len() || e == p || class_items(s.subrange(p, e)) is None {
                r is Err && r->Err_0 is InvalidGlobParse
            } else {
                r is Ok && r->Ok_0@ == seq!['['] + class_items(s.subrange(p, e))->Some_0 + seq![']']
                    && final(tokens).pos() == e + 1
            }
        }),
{
    let ghost s = tokens.chars();
    let ghost p = tokens.pos();
    proof {
        tokens.lemma_bounds();
        lemma_literal_end(s, p, class_close());
    }
    let text = match tokens.read_literal(TokenSet::square_end()) {
        Some(t) => t,
        None => return Err(tokens.error(TokenSet::square_end())),
    };
    if tokens.next_token(TokenSet::square_end()).is_none() {
        return Err(tokens.error(TokenSet::square_end()));
    }
    let mut out = vec!['['];
    if !class_body(&text, &mut out) {
        return Err(tokens.error(TokenSet::literal()));
    }
    out.push(']');
    Ok(out)
}

/// Reads the items of one path component, up to a `/`, a `**` or the end, and gives the
/// regular expression that matches the whole component; `None` where the component is empty.
fn parse_pattern(tokens: &mut Tokenizer) -> (r: Result<Option<Vec<char>>>)
    requires
        old(tokens).wf(),
        old(tokens).mark() == old(tokens).pos(),
    ensures
        final(tokens).wf(),
        final(tokens).chars() == old(tokens).chars(),
        final(tokens).source() == old(tokens).source(),
        match run(old(tokens).chars(), old(tokens).pos(), seq![]) {
            None => r is Err && r->Err_0 is InvalidGlobParse,
            Some((rr, j)) => {
                &&& r is Ok
                &&& final(tokens).pos() == j
                &&& final(tokens).mark() == j
                &&& (r->Ok_0 is Some <==> j > old(tokens).pos())
                &&& r->Ok_0 is Some ==> r->Ok_0->Some_0@ == anchored(rr)
            },
        },
{
    let ghost s = tokens.chars();
    let ghost i0 = tokens.pos();
    proof {
        tokens.lemma_bounds();
    }
    let mut constructor: Vec<char> = Vec::new();
    let accept_set = TokenSet::star().union(TokenSet::question()).union(TokenSet::square_start());
    let break_set = accept_set.union(TokenSet::separator());
    assert(break_set == literal_break());
    proof {
        assert(s.len() == tokens.chars().len());
    }
    loop
        invariant
            tokens.wf(),
            tokens.chars() == s,
            tokens.source() == old(tokens).source(),
            tokens.mark() == tokens.pos(),
            i0 <= tokens.pos() <= s.len(),
            i0 == old(tokens).pos(),
            run(s, i0, seq![]) == run(s, tokens.pos(), constructor@),
            constructor@.len() == 0 <==> tokens.pos() == i0,
            accept_set == (TokenSet { star: true, question: true, square_start: true, ..TokenSet::empty_spec() }),
            break_set == literal_break(),
            s == old(tokens).chars(),
            i0 >= 0,
        ensures
            component_ends(s, tokens.pos()),
        decreases s.len() - tokens.pos(),
    {
        let ghost p = tokens.pos();
        proof {
            tokens.lemma_bounds();
        }
        match tokens.next_token(accept_set) {
            Some(Token::Star) => {
                if tokens.next_token(TokenSet::star()).is_some() {
                    tokens.reset();
                    break;
                }
                let mut piece_re = star();
                constructor.append(&mut piece_re);
            },
            Some(Token::Question) => {
                let mut piece_re = question();
                constructor.append(&mut piece_re);
            },
            Some(Token::SquareStart) => {
                let mut piece_re = match parse_charset(tokens) {
                    Ok(v) => v,
                    Err(e) => return Err(e),
                };
                proof {
                    lemma_literal_end(s, p + 1, class_close());
                }
                constructor.append(&mut piece_re);
            },
            Some(_) => {
                break;
            },
            None => match {
                proof {
                    lemma_literal_end(s, p, break_set);
                }
                tokens.read_literal(break_set)
            } {
                Some(lit) => {
                    proof {
                        lemma_literal_end(s, p, break_set);
                    }
                    let mut m: usize = 0;
                    while m < lit.len()
                        invariant
                            tokens.wf(),
                            tokens.chars() == s,
                            0 <= m <= lit@.len(),
                            lit@ == s.subrange(p, p + lit@.len()),
                            p + lit@.len() == literal_end(s, p, literal_break()),
                            forall|k: int| p <= k < literal_end(s, p, literal_break()) ==> literal_break().token_of(#[trigger] s[k]) is None,
                            p + lit@.len() <= s.len(),
                            p >= i0,
                            i0 >= 0,
                            run(s, i0, seq![]) == run(s, p + m, constructor@),
                            constructor@.len() == 0 <==> (p + m == i0),
                        decreases lit@.len() - m,
                    {
                        let c = lit[m];
                        proof {
                            assert(s[p + m] == c);
                            assert(literal_break().token_of(s[p + m]) is None);
                        }
                        push_escaped(&mut constructor, c);
                        m = m + 1;
                    }
                },
                None => {
                    break;
                },
            },
        }
        tokens.flush();
    }
    proof {
        lemma_run(s, tokens.pos(), constructor@);
    }
    if constructor.len() == 0 {
        Ok(None)
    } else {
        let mut out = vec!['^'];
        out.append(&mut constructor);
        out.push('$');
        proof {
            assert(out@ =~= anchored(run(s, i0, seq![])->Some_0.0));
        }
        Ok(Some(out))
    }
}

/// Reads one segment: a component's pattern, a `**`, or a `/`; `None` at the end.
fn parse_segment(tokens: &mut Tokenizer) -> (r: Result<Option<Segment>>)
    requires
        old(tokens).wf(),
        old(tokens).mark() == old(tokens).pos(),
    ensures
        final(tokens).wf(),
        final(tokens).chars() == old(tokens).chars(),
        final(tokens).source() == old(tokens).source(),
        r is Ok ==> final(tokens).mark() == final(tokens).pos(),
        match segment_at(old(tokens).chars(), old(tokens).pos()) {
            None => r is Err && r->Err_0 is InvalidGlobParse,
            Some((seg, j)) => {
                &&& r is Ok
                &&& (r->Ok_0 is Some <==> seg is Some)
                &&& r->Ok_0 is Some ==> r->Ok_0->Some_0@ == seg->Some_0
                &&& seg is Some ==> final(tokens).pos() == j
                &&& seg is None ==> final(tokens).pos() == old(tokens).pos()
            },
        },
{
    let ghost s = tokens.chars();
    let ghost i = tokens.pos();
    proof {
        tokens.lemma_bounds();
    }
    match parse_pattern(tokens) {
        Err(e) => return Err(e),
        Ok(Some(regex)) => return Ok(Some(Segment::Pattern(Pattern { source: string_of(&regex) }))),
        Ok(None) => {},
    }
    proof {
        lemma_run(s, i, seq![]);
    }
    let output = match tokens.next_token(TokenSet::star().union(TokenSet::separator())) {
        Some(Token::Star) => {
            tokens.next_token(TokenSet::star());
            Some(Segment::Anything)
        },
        Some(_) => Some(Segment::Separator),
        None => None,
    };
    if output.is_some() {
        tokens.flush();
    }
    Ok(output)
}

/// Parses a glob into its leading negation and its segments.
pub fn parse(input: &str) -> (r: Result<Ast>)
    ensures
        match parse_spec(input@) {
            Some(a) => r is Ok && r->Ok_0@ == a,
            None => r is Err && r->Err_0 is InvalidGlobParse,
        },
{
    let mut tokens = Tokenizer::new(input);
    let ghost s = input@;
    let starts_negated = tokens.next_token(TokenSet::negate()).is_some();
    tokens.flush();
    proof {
        tokens.lemma_bounds();
    }
    let ghost start = tokens.pos();
    let mut segments: Vec<Segment> = Vec::new();
    loop
        invariant
            tokens.wf(),
            tokens.chars() == s,
            tokens.mark() == tokens.pos(),
            0 <= start <= tokens.pos() <= s.len(),
            start == (if starts_negated { 1int } else { 0int }),
            starts_negated == (s.len() > 0 && s[0] == '!'),
            s == input@,
            segments_from(s, start) == (match segments_from(s, tokens.pos()) {
                Some(rest) => Some(segments@.map_values(|g: Segment| g@) + rest),
                None => None::<Seq<SegmentView>>,
            }),
        ensures
            tokens.pos() == s.len(),
        decreases s.len() - tokens.pos(),
    {
        let ghost p = tokens.pos();
        proof {
            tokens.lemma_bounds();
            if p < s.len() {
                lemma_segment_at(s, p);
            }
        }
        match parse_segment(&mut tokens) {
            Err(e) => {
                return Err(e);
            },
            Ok(Some(segment)) => {
                let ghost before = segments@.map_values(|g: Segment| g@);
                segments.push(segment);
                proof {
                    assert(segments@.map_values(|g: Segment| g@) =~= before + seq![segment@]);
                    match segments_from(s, tokens.pos()) {
                        Some(rest) => assert(before + seq![segment@] + rest =~= before + (seq![segment@] + rest)),
                        None => {},
                    }
                }
            },
            Ok(None) => {
                break;
            },
        }
    }
    proof {
        assert(segments@.map_values(|g: Segment| g@) + Seq::<SegmentView>::empty() =~= segments@.map_values(|g: Segment| g@));
    }
    match tokens.next_token(TokenSet::empty()) {
        Some(Token::Ending) => Ok(Ast { starts_negated, segments }),
        _ => Err(tokens.error(TokenSet::empty())),
    }
}

} // verus!
