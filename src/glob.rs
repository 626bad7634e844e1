pub mod parser;
pub mod tokenizer;

use crate::error::{Error, Result};
use crate::glob::parser::{parse, parse_spec, regex_accepts, AstView, Pattern, Segment, SegmentView};
use slab::Slab;
use std::collections::HashMap;
use vstd::prelude::*;

verus! {

broadcast use vstd::std_specs::hash::group_hash_axioms;

#[verifier::external_type_specification]
#[verifier::external_body]
#[verifier::reject_recursive_types(T)]
pub struct ExSlab<T>(Slab<T>);

/// A single segment of a glob, used to match against one component of a path.
#[derive(Debug)]
pub struct Glob {
    segment: Option<Pattern>,
    negated: bool,
    trailing_slash: bool,
    relative: bool,
}

/// A segment of a glob, as a value. A matcher of `None` stands for `**`.
pub struct GlobView {
    pub matcher: Option<Seq<char>>,
    pub negated: bool,
    pub trailing_slash: bool,
    pub relative: bool,
}

impl View for Glob {
    type V = GlobView;

    closed spec fn view(&self) -> GlobView {
        GlobView {
            matcher: match self.segment {
                Some(p) => Some(p@),
                None => None,
            },
            negated: self.negated,
            trailing_slash: self.trailing_slash,
            relative: self.relative,
        }
    }
}

/// What the slab of glob segments holds, by key.
pub uninterp spec fn glob_slots(s: Slab<Glob>) -> Map<usize, GlobView>;

/// Relies on slab::Slab::new: the slab holds nothing.
#[verifier::external_body]
fn glob_slab_new() -> (r: Slab<Glob>)
    ensures
        glob_slots(r) =~= Map::empty(),
{
    slab::Slab::new()
}

/// Relies on slab::Slab::insert: the value is stored under a key that was vacant, which is
/// returned; nothing else changes.
#[verifier::external_body]
fn glob_slab_insert(s: &mut Slab<Glob>, g: Glob) -> (k: usize)
    ensures
        !glob_slots(*old(s)).contains_key(k),
        glob_slots(*final(s)) == glob_slots(*old(s)).insert(k, g@),
{
    s.insert(g)
}

/// Relies on slab::Slab::get: the value under the key, if the key is occupied.
#[verifier::external_body]
fn glob_slab_get(s: &Slab<Glob>, k: usize) -> (r: Option<&Glob>)
    ensures
        match r {
            Some(g) => glob_slots(*s).contains_key(k) && glob_slots(*s)[k] == g@,
            None => !glob_slots(*s).contains_key(k),
        },
{
    s.get(k)
}

pub uninterp spec fn utf8_text(b: Seq<u8>) -> Option<Seq<char>>;

/// Relies on std::str::from_utf8: the text that the bytes encode, if they are valid UTF-8. The
/// answer depends on the bytes alone.
#[verifier::external_body]
fn decode_utf8(b: &[u8]) -> (r: Option<&str>)
    ensures
        match r {
            Some(t) => utf8_text(b@) == Some(t@),
            None => utf8_text(b@) is None,
        },
{
    std::str::from_utf8(b).ok()
}

/// A key that indexes into the GlobArena.
#[derive(Debug, Copy, Clone, Hash, PartialEq, Eq, Structural)]
pub struct GlobKey(pub usize);

/// Whether the segment matches a component named `text`; `**` matches anything.
pub open spec fn segment_matches(g: GlobView, text: Seq<char>) -> bool {
    match g.matcher {
        Some(m) => regex_accepts(m, text),
        None => true,
    }
}

/// Whether the glob was anchored: a leading `/`, or more than two segments.
pub open spec fn is_fixed(segs: Seq<SegmentView>) -> bool {
    (segs.len() > 0 && segs[0] is Separator) || segs.len() > 2
}

/// The segments after a leading `/`.
pub open spec fn body(segs: Seq<SegmentView>) -> Seq<SegmentView> {
    if segs.len() > 0 && segs[0] is Separator {
        segs.skip(1)
    } else {
        segs
    }
}

pub open spec fn matcher_of(seg: SegmentView) -> Option<Seq<char>> {
    match seg {
        SegmentView::Pattern(p) => Some(p),
        _ => None,
    }
}

/// The glob segments for the parsed segments `r`: each component, with whether a `/` follows
/// it; `None` where a `/` stands where a component is wanted, or two components touch.
pub open spec fn batch(r: Seq<SegmentView>, negated: bool, relative: bool) -> Option<Seq<GlobView>>
    decreases r.len(),
{
    if r.len() == 0 {
        Some(seq![])
    } else if r[0] is Separator {
        None
    } else if r.len() == 1 {
        Some(seq![GlobView { matcher: matcher_of(r[0]), negated, trailing_slash: false, relative }])
    } else if r[1] is Separator {
        match batch(r.skip(2), negated, relative) {
            Some(rest) => Some(
                seq![GlobView { matcher: matcher_of(r[0]), negated, trailing_slash: true, relative }]
                    + rest,
            ),
            None => None,
        }
    } else {
        None
    }
}

/// The chain of glob segments that a parsed glob compiles to.
pub open spec fn glob_chain(a: AstView) -> Option<Seq<GlobView>> {
    batch(body(a.segments), a.starts_negated, !is_fixed(a.segments))
}

/// The chain of glob segments that the pattern `p` compiles to; `None` if it does not compile.
pub open spec fn compiled(p: Seq<char>) -> Option<Seq<GlobView>> {
    match parse_spec(p) {
        Some(a) => match glob_chain(a) {
            Some(c) => if c.len() > 0 {
                Some(c)
            } else {
                None
            },
            None => None,
        },
        None => None,
    }
}

/// Starting at key `k` and following the next-segment links, the segments are `ps`, and the
/// last has no successor.
pub open spec fn chain_from(
    globs: Map<usize, GlobView>,
    next: Map<usize, usize>,
    k: usize,
    ps: Seq<GlobView>,
) -> bool
    decreases ps.len(),
{
    &&& ps.len() > 0
    &&& globs.contains_key(k)
    &&& globs[k] == ps[0]
    &&& if ps.len() == 1 {
        !next.contains_key(k)
    } else {
        next.contains_key(k) && chain_from(globs, next, next[k], ps.skip(1))
    }
}

/// A chain stays in place when keys are added that it does not use.
pub proof fn lemma_chain_kept(
    globs: Map<usize, GlobView>,
    next: Map<usize, usize>,
    globs2: Map<usize, GlobView>,
    next2: Map<usize, usize>,
    k: usize,
    ps: Seq<GlobView>,
)
    requires
        chain_from(globs, next, k, ps),
        forall|x: usize| #[trigger] globs.contains_key(x) ==> globs2.contains_key(x) && globs2[x] == globs[x],
        forall|x: usize|
            #[trigger] globs.contains_key(x) ==> (next2.contains_key(x) == next.contains_key(x)) && (
            next.contains_key(x) ==> next2[x] == next[x]),
    ensures
        chain_from(globs2, next2, k, ps),
    decreases ps.len(),
{
    if ps.len() > 1 {
        lemma_chain_kept(globs, next, globs2, next2, next[k], ps.skip(1));
    }
}

/// Whether the segment matches an entry named by the bytes `name`: a name that is not UTF-8
/// matches nothing.
pub open spec fn name_matches(g: GlobView, name: Seq<u8>) -> bool {
    match utf8_text(name) {
        None => false,
        Some(text) => segment_matches(g, text),
    }
}

/// Every segment of the chain of `n` segments that starts at `k` is new: `old` does not hold
/// its key.
pub open spec fn chain_fresh(old: Map<usize, GlobView>, next: Map<usize, usize>, k: usize, n: nat) -> bool
    decreases n,
{
    &&& !old.contains_key(k)
    &&& n > 1 ==> next.contains_key(k) && chain_fresh(old, next, next[k], (n - 1) as nat)
}

/// The freshness of a chain stays when links are added at keys that the chain does not use.
pub proof fn lemma_fresh_kept(
    old: Map<usize, GlobView>,
    globs: Map<usize, GlobView>,
    next: Map<usize, usize>,
    next2: Map<usize, usize>,
    k: usize,
    ps: Seq<GlobView>,
)
    requires
        chain_from(globs, next, k, ps),
        chain_fresh(old, next, k, ps.len()),
        forall|x: usize|
            #[trigger] globs.contains_key(x) ==> (next2.contains_key(x) == next.contains_key(x)) && (
            next.contains_key(x) ==> next2[x] == next[x]),
    ensures
        chain_fresh(old, next2, k, ps.len()),
    decreases ps.len(),
{
    if ps.len() > 1 {
        lemma_fresh_kept(old, globs, next, next2, next[k], ps.skip(1));
    }
}

/// The answer of segment `k` for an entry that it matches or not: `None` while the glob goes on
/// past this segment or the entry does not match; else whether the entry is ignored.
pub open spec fn verdict_given(
    globs: Map<usize, GlobView>,
    next: Map<usize, usize>,
    k: usize,
    matched: bool,
) -> Option<bool> {
    if next.contains_key(k) || !matched {
        None
    } else {
        Some(!globs[k].negated)
    }
}

/// The answer of segment `k` for an entry named `name`.
pub open spec fn file_verdict(
    globs: Map<usize, GlobView>,
    next: Map<usize, usize>,
    k: usize,
    name: Seq<u8>,
) -> Option<bool> {
    verdict_given(globs, next, k, name_matches(globs[k], name))
}

/// The segments that apply inside a directory from segment `k`, given whether `k` matches the
/// directory's name: its successor where it matches, then itself where it is `**` or relative.
pub open spec fn successors_given(
    globs: Map<usize, GlobView>,
    next: Map<usize, usize>,
    k: usize,
    matched: bool,
) -> Seq<GlobKey> {
    let descend: Seq<GlobKey> = if matched && next.contains_key(k) {
        seq![GlobKey(next[k])]
    } else {
        seq![]
    };
    let stay: Seq<GlobKey> = if globs[k].relative || globs[k].matcher is None {
        seq![GlobKey(k)]
    } else {
        seq![]
    };
    descend + stay
}

/// The segments that apply inside the directory `name`, from segment `k`.
pub open spec fn dir_successors(
    globs: Map<usize, GlobView>,
    next: Map<usize, usize>,
    k: usize,
    name: Seq<u8>,
) -> Seq<GlobKey> {
    successors_given(globs, next, k, name_matches(globs[k], name))
}

/// An arena of glob segments.
pub struct GlobArena {
    storage: Slab<Glob>,
    children: HashMap<usize, usize>,
}

impl GlobArena {
    /// The segments, by key.
    pub closed spec fn globs(&self) -> Map<usize, GlobView> {
        glob_slots(self.storage)
    }

    /// For each segment, the one that follows it in its glob.
    pub closed spec fn next(&self) -> Map<usize, usize> {
        self.children@
    }

    pub open spec fn wf(&self) -> bool {
        forall|k: usize| #[trigger]
            self.next().contains_key(k) ==> self.globs().contains_key(k) && self.globs().contains_key(
                self.next()[k],
            )
    }

    /// Whether the arena holds segment `k`.
    pub open spec fn has(&self, k: GlobKey) -> bool {
        self.globs().contains_key(k.0)
    }

    /// Create a new, empty arena.
    pub fn new() -> (r: GlobArena)
        ensures
            r.wf(),
            r.globs() == Map::<usize, GlobView>::empty(),
            r.next() == Map::<usize, usize>::empty(),
    {
        GlobArena { storage: glob_slab_new(), children: HashMap::new() }
    }

    /// Whether `new` keeps every segment and link of `old`.
    pub open spec fn extends(old: GlobArena, new: GlobArena) -> bool {
        &&& forall|x: usize| #[trigger]
            old.globs().contains_key(x) ==> new.globs().contains_key(x) && new.globs()[x]
                == old.globs()[x]
        &&& forall|x: usize| #[trigger]
            old.globs().contains_key(x) ==> (new.next().contains_key(x) == old.next().contains_key(
                x,
            )) && (old.next().contains_key(x) ==> new.next()[x] == old.next()[x])
    }

    /// Compile a glob, and give the key of its first segment.
    pub fn compile_glob(&mut self, glob: &str) -> (r: Result<GlobKey>)
        requires
            old(self).wf(),
        ensures
            final(self).wf(),
            GlobArena::extends(*old(self), *final(self)),
            match compiled(glob@) {
                Some(c) => r is Ok && chain_from(final(self).globs(), final(self).next(), r->Ok_0.0, c)
                    && chain_fresh(old(self).globs(), final(self).next(), r->Ok_0.0, c.len()),
                None => {
                    &&& r is Err
                    &&& parse_spec(glob@) is None ==> r->Err_0 is InvalidGlobParse
                    &&& parse_spec(glob@) is Some ==> r->Err_0 is InvalidGlobCompile
                    &&& final(self).globs() == old(self).globs()
                    &&& final(self).next() == old(self).next()
                },
            },
    {
        let ast = match parse(glob) {
            Ok(a) => a,
            Err(e) => return Err(e),
        };
        let ghost a = ast@;
        assert(parse_spec(glob@) == Some(a));
        let starts_negated = ast.starts_negated;
        let mut segments = ast.segments;
        let ghost all = segments@.map_values(|g: Segment| g@);
        let n = segments.len();
        let leading = n > 0 && matches!(segments[0], Segment::Separator);
        let fixed_path = leading || n > 2;
        if leading {
            segments.remove(0);
        }
        let ghost rest = body(all);
        proof {
            assert(segments@.map_values(|g: Segment| g@) =~= rest);
        }
        let mut pieces: Vec<Glob> = Vec::new();
        while segments.len() > 0
            invariant
                self.wf(),
                self.globs() == old(self).globs(),
                self.next() == old(self).next(),
                parse_spec(glob@) == Some(a),
                rest == body(a.segments),
                starts_negated == a.starts_negated,
                fixed_path == is_fixed(a.segments),
                batch(rest, starts_negated, !fixed_path) == (match batch(segments@.map_values(|g: Segment| g@), starts_negated, !fixed_path) {
                    Some(b) => Some(pieces@.map_values(|g: Glob| g@) + b),
                    None => None::<Seq<GlobView>>,
                }),
            decreases segments@.len(),
        {
            let ghost cur = segments@.map_values(|g: Segment| g@);
            let ghost before = pieces@.map_values(|g: Glob| g@);
            let start = segments.remove(0);
            let segment = match start {
                Segment::Separator => {
                    return Err(Error::InvalidGlobCompile(glob.to_string(), "unexpected /".to_string()));
                },
                Segment::Pattern(p) => Some(p),
                Segment::Anything => None,
            };
            let trailing_slash = if segments.len() == 0 {
                false
            } else {
                match segments.remove(0) {
                    Segment::Separator => true,
                    _ => {
                        return Err(
                            Error::InvalidGlobCompile(glob.to_string(), "/ needed between sections".to_string()),
                        );
                    },
                }
            };
            let g = Glob { segment, negated: starts_negated, trailing_slash, relative: !fixed_path };
            pieces.push(g);
            proof {
                assert(pieces@.map_values(|g: Glob| g@) =~= before + seq![g@]);
                if trailing_slash {
                    assert(cur.skip(2) =~= segments@.map_values(|g: Segment| g@));
                    match batch(cur.skip(2), starts_negated, !fixed_path) {
                        Some(b) => assert(before + seq![g@] + b =~= before + (seq![g@] + b)),
                        None => {},
                    }
                } else {
                    assert(segments@.map_values(|g: Segment| g@) =~= Seq::<SegmentView>::empty());
                    assert(before + seq![g@] + Seq::<GlobView>::empty() =~= before + seq![g@]);
                }
            }
        }
        proof {
            assert(pieces@.map_values(|g: Glob| g@) + Seq::<GlobView>::empty() =~= pieces@.map_values(|g: Glob| g@));
        }
        if pieces.len() == 0 {
            return Err(Error::InvalidGlobCompile(glob.to_string(), "no glob segments".to_string()));
        }
        let ghost chain = pieces@.map_values(|g: Glob| g@);
        let ghost old_arena = *self;
        let mut first: usize = 0;
        let mut linked = false;
        while pieces.len() > 0
            invariant
                self.wf(),
                GlobArena::extends(old_arena, *self),
                old_arena.wf(),
                pieces@.len() <= chain.len(),
                pieces@.map_values(|g: Glob| g@) == chain.take(pieces@.len() as int),
                linked <==> pieces@.len() < chain.len(),
                linked ==> chain_from(self.globs(), self.next(), first, chain.skip(pieces@.len() as int)),
                linked ==> !old_arena.globs().contains_key(first),
                linked ==> chain_fresh(old_arena.globs(), self.next(), first, (chain.len() - pieces@.len()) as nat),
                linked ==> self.globs().contains_key(first),
            decreases pieces@.len(),
        {
            let ghost before = *self;
            let ghost before_pieces = pieces@;
            proof {
                assert(pieces@.map_values(|g: Glob| g@)[pieces@.len() - 1] == before_pieces[pieces@.len() - 1]@);
            }
            let g = pieces.pop().unwrap();
            let ghost gv = g@;
            let key = glob_slab_insert(&mut self.storage, g);
            if linked {
                self.children.insert(key, first);
            }
            proof {
                let i = pieces@.len() as int;
                assert(pieces@.map_values(|g: Glob| g@) =~= chain.take(i));
                assert(chain[i] == gv);
                assert(self.globs() == before.globs().insert(key, gv));
                if linked {
                    assert(self.next() == before.next().insert(key, first));
                    assert(!before.next().contains_key(key));
                    lemma_chain_kept(before.globs(), before.next(), self.globs(), self.next(), first, chain.skip(i + 1));
                    lemma_fresh_kept(old_arena.globs(), before.globs(), before.next(), self.next(), first, chain.skip(i + 1));
                    assert(chain.skip(i + 1).len() == chain.len() - (i + 1));
                    assert(!old_arena.globs().contains_key(key));
                    assert(chain_fresh(old_arena.globs(), self.next(), key, (chain.len() - i) as nat));
                    assert(chain.skip(i).skip(1) =~= chain.skip(i + 1));
                    assert(chain.skip(i)[0] == gv);
                    assert(chain_from(self.globs(), self.next(), key, chain.skip(i)));
                } else {
                    assert(self.next() == before.next());
                    assert(chain.skip(i) =~= seq![gv]);
                    assert(!old_arena.globs().contains_key(key));
                }
            }
            first = key;
            linked = true;
        }
        proof {
            assert(chain.skip(0) =~= chain);
        }
        Ok(GlobKey(first))
    }

    /// Whether segment `key` matches an entry named `name`.
    fn name_matches(&self, key: GlobKey, name: &[u8]) -> (r: bool)
        requires
            self.wf(),
            self.has(key),
        ensures
            r == name_matches(self.globs()[key.0], name@),
    {
        let glob = glob_slab_get(&self.storage, key.0).unwrap();
        match decode_utf8(name) {
            None => false,
            Some(text) => match &glob.segment {
                Some(regex) => regex.is_match(text),
                None => true,
            },
        }
    }

    /// The answer of segment `key` for an entry that it matches (`matched`) or not:
    /// `Some(true)` if it ignores the entry, `Some(false)` if it keeps it (a negated glob),
    /// `None` if it says nothing.
    pub fn verdict(&self, key: GlobKey, matched: bool) -> (r: Option<bool>)
        requires
            self.wf(),
            self.has(key),
        ensures
            r == verdict_given(self.globs(), self.next(), key.0, matched),
    {
        if self.children.contains_key(&key.0) || !matched {
            return None;
        }
        let glob = glob_slab_get(&self.storage, key.0).unwrap();
        Some(!glob.negated)
    }

    /// The answer of segment `key` for an entry named `name`: `Some(true)` if it ignores the
    /// entry, `Some(false)` if it keeps it (a negated glob), `None` if it says nothing.
    pub fn match_file(&self, key: GlobKey, name: &[u8], is_dir: bool) -> (r: Option<bool>)
        requires
            self.wf(),
            self.has(key),
        ensures
            r == file_verdict(self.globs(), self.next(), key.0, name@),
    {
        if self.children.contains_key(&key.0) {
            return None;
        }
        let matched = self.name_matches(key, name);
        self.verdict(key, matched)
    }

    /// The segments that apply inside a directory from segment `key`, given whether `key`
    /// matches the directory's name; `None` where there are none.
    pub fn successors(&self, key: GlobKey, matched: bool) -> (r: Option<Vec<GlobKey>>)
        requires
            self.wf(),
            self.has(key),
        ensures
            match r {
                Some(v) => v@ == successors_given(self.globs(), self.next(), key.0, matched) && v@.len() > 0,
                None => successors_given(self.globs(), self.next(), key.0, matched).len() == 0,
            },
            forall|k: GlobKey| successors_given(self.globs(), self.next(), key.0, matched).contains(k) ==> self.has(k),
    {
        let glob = glob_slab_get(&self.storage, key.0).unwrap();
        let mut output: Vec<GlobKey> = Vec::new();
        if matched {
            match self.children.get(&key.0) {
                Some(next) => output.push(GlobKey(*next)),
                None => {},
            }
        }
        if glob.relative || glob.segment.is_none() {
            output.push(GlobKey(key.0));
        }
        proof {
            assert(output@ =~= successors_given(self.globs(), self.next(), key.0, matched));
        }
        if output.len() == 0 {
            None
        } else {
            Some(output)
        }
    }

    /// The segments that apply to the entries inside the directory `name`, from segment `key`;
    /// `None` where there are none.
    pub fn match_dir(&self, key: GlobKey, name: &[u8]) -> (r: Option<Vec<GlobKey>>)
        requires
            self.wf(),
            self.has(key),
        ensures
            match r {
                Some(v) => v@ == dir_successors(self.globs(), self.next(), key.0, name@) && v@.len() > 0,
                None => dir_successors(self.globs(), self.next(), key.0, name@).len() == 0,
            },
            forall|k: GlobKey| dir_successors(self.globs(), self.next(), key.0, name@).contains(k) ==> self.has(k),
    {
        let matched = self.name_matches(key, name);
        self.successors(key, matched)
    }
}

} // verus!
