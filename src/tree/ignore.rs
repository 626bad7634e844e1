use crate::error::Error;
use crate::glob::{
    chain_from, compiled, dir_successors, file_verdict, GlobArena, GlobKey, GlobView,
};
use std::collections::HashMap;
use vstd::prelude::*;

verus! {

broadcast use vstd::std_specs::hash::group_hash_axioms;

/// Whether `c` is white space in the Unicode sense.
pub open spec fn is_white(c: char) -> bool {
    let u = c as u32;
    (0x9 <= u <= 0xD) || u == 0x20 || u == 0x85 || u == 0xA0 || u == 0x1680 || (0x2000 <= u
        <= 0x200A) || u == 0x2028 || u == 0x2029 || u == 0x202F || u == 0x205F || u == 0x3000
}

/// `s` without its trailing white space.
pub open spec fn trim_end_spec(s: Seq<char>) -> Seq<char>
    decreases s.len(),
{
    if s.len() > 0 && is_white(s.last()) {
        trim_end_spec(s.drop_last())
    } else {
        s
    }
}

/// Whether `c` is white space in the Unicode sense.
fn is_white_char(c: char) -> (r: bool)
    ensures
        r == is_white(c),
{
    let u = c as u32;
    (0x9 <= u && u <= 0xD) || u == 0x20 || u == 0x85 || u == 0xA0 || u == 0x1680 || (0x2000 <= u
        && u <= 0x200A) || u == 0x2028 || u == 0x2029 || u == 0x202F || u == 0x205F || u == 0x3000
}

/// `s` without its trailing white space.
fn trim_end(s: &str) -> (r: &str)
    ensures
        r@ == trim_end_spec(s@),
{
    let n = s.unicode_len();
    let mut k: usize = n;
    proof {
        assert(s@.take(n as int) =~= s@);
    }
    loop
        invariant
            k <= n,
            n == s@.len(),
            trim_end_spec(s@) == trim_end_spec(s@.take(k as int)),
        ensures
            trim_end_spec(s@) == s@.take(k as int),
        decreases k,
    {
        if k == 0 {
            proof {
                assert(s@.take(0) =~= Seq::<char>::empty());
            }
            break;
        }
        let c = s.get_char(k - 1);
        proof {
            assert(s@.take(k as int).last() == c);
            assert(s@.take(k as int).drop_last() =~= s@.take(k - 1));
        }
        if !is_white_char(c) {
            break;
        }
        k = k - 1;
    }
    s.substring_char(0, k)
}

/// Whether a line of an ignore file holds no pattern: a comment, or nothing but white space.
pub open spec fn is_skipped(line: Seq<char>) -> bool {
    (line.len() > 0 && line[0] == '#') || trim_end_spec(line).len() == 0
}

/// The patterns that the lines of an ignore file give, in order: each line that is not
/// skipped, without its trailing white space, where it compiles.
pub open spec fn patterns_of(lines: Seq<Seq<char>>) -> Seq<Seq<char>>
    decreases lines.len(),
{
    if lines.len() == 0 {
        seq![]
    } else {
        let line = lines.last();
        let rest = patterns_of(lines.drop_last());
        if !is_skipped(line) && compiled(trim_end_spec(line)) is Some {
            rest.push(trim_end_spec(line))
        } else {
            rest
        }
    }
}

/// The number of lines of an ignore file that are not skipped and do not compile.
pub open spec fn bad_lines(lines: Seq<Seq<char>>) -> nat
    decreases lines.len(),
{
    if lines.len() == 0 {
        0
    } else {
        let line = lines.last();
        bad_lines(lines.drop_last()) + if !is_skipped(line) && compiled(trim_end_spec(line)) is None {
            1nat
        } else {
            0nat
        }
    }
}

/// `new` keeps every segment and link of `old`.
pub open spec fn segments_kept(old: Ignore, new: Ignore) -> bool {
    &&& forall|x: usize| #[trigger]
        old.globs().contains_key(x) ==> new.globs().contains_key(x) && new.globs()[x] == old.globs()[x]
    &&& forall|x: usize| #[trigger]
        old.globs().contains_key(x) ==> (new.next().contains_key(x) == old.next().contains_key(x)) && (
        old.next().contains_key(x) ==> new.next()[x] == old.next()[x])
}

/// The segments of directory `at` in `new` are those of `old`, followed by one compiled chain
/// for each of `pats`, in order.
pub open spec fn patterns_added(old: Ignore, new: Ignore, pats: Seq<Seq<char>>, at: usize) -> bool {
    let added = new.active(at).skip(old.active(at).len() as int);
    &&& new.active(at).len() == old.active(at).len() + pats.len()
    &&& new.active(at).take(old.active(at).len() as int) == old.active(at)
    &&& forall|i: int| 0 <= i < pats.len() ==> chain_from(new.globs(), new.next(), #[trigger] added[i].0, compiled(pats[i])->Some_0)
}

/// The bytes of the name `.gitignore`.
pub open spec fn gitignore_name() -> Seq<u8> {
    seq![46u8, 103u8, 105u8, 116u8, 105u8, 103u8, 110u8, 111u8, 114u8, 101u8]
}

/// Whether a name is hidden: it starts with `.` and is not `.gitignore`.
pub open spec fn is_hidden(name: Seq<u8>) -> bool {
    name.len() > 0 && name[0] == 46u8 && name != gitignore_name()
}

/// The segments that apply inside the directory `name`, from each of `ks` in turn.
pub open spec fn descend_all(
    globs: Map<usize, GlobView>,
    next: Map<usize, usize>,
    ks: Seq<GlobKey>,
    name: Seq<u8>,
) -> Seq<GlobKey>
    decreases ks.len(),
{
    if ks.len() == 0 {
        seq![]
    } else {
        descend_all(globs, next, ks.drop_last(), name) + dir_successors(
            globs,
            next,
            ks.last().0,
            name,
        )
    }
}

/// Whether the entry `name` is opened, given the segments `ks` that apply in its directory: not
/// if it is hidden; else yes if a negated segment keeps it, or if no segment ignores it.
pub open spec fn opens(
    globs: Map<usize, GlobView>,
    next: Map<usize, usize>,
    ks: Seq<GlobKey>,
    name: Seq<u8>,
) -> bool {
    !is_hidden(name) && ((exists|i: int|
        0 <= i < ks.len() && file_verdict(globs, next, ks[i].0, name) == Some(false)) || !(exists|
        i: int|
        0 <= i < ks.len() && file_verdict(globs, next, ks[i].0, name) == Some(true)))
}

/// For each directory, the glob segments that apply to its entries.
pub struct Ignore {
    arena: GlobArena,
    key_to_globs: HashMap<usize, Vec<GlobKey>>,
}

impl Ignore {
    pub closed spec fn globs(&self) -> Map<usize, GlobView> {
        self.arena.globs()
    }

    pub closed spec fn next(&self) -> Map<usize, usize> {
        self.arena.next()
    }

    /// The segments that apply to the entries of directory `n`.
    pub closed spec fn active(&self, n: usize) -> Seq<GlobKey> {
        if self.key_to_globs@.contains_key(n) {
            self.key_to_globs@[n]@
        } else {
            seq![]
        }
    }

    pub closed spec fn wf(&self) -> bool {
        &&& self.arena.wf()
        &&& forall|n: usize, i: int| #![trigger self.key_to_globs@[n]@[i]]
            self.key_to_globs@.contains_key(n) && 0 <= i < self.key_to_globs@[n]@.len()
                ==> self.arena.has(self.key_to_globs@[n]@[i])
    }

    /// No directory has segments yet.
    pub fn new() -> (r: Ignore)
        ensures
            r.wf(),
            forall|n: usize| r.active(n) == Seq::<GlobKey>::empty(),
    {
        Ignore { arena: GlobArena::new(), key_to_globs: HashMap::new() }
    }

    /// Reads the lines of the ignore file of directory `at`: each line that is not a comment or
    /// blank is compiled, without its trailing white space, and applies to the entries of `at`.
    /// Gives the errors of the lines that do not compile.
    pub fn parse_gitignore(&mut self, lines: &Vec<String>, at: usize) -> (errors: Vec<Error>)
        requires
            old(self).wf(),
        ensures
            final(self).wf(),
            forall|n: usize| n != at ==> final(self).active(n) == old(self).active(n),
            segments_kept(*old(self), *final(self)),
            patterns_added(*old(self), *final(self), patterns_of(lines@.map_values(|l: String| l@)), at),
            errors@.len() == bad_lines(lines@.map_values(|l: String| l@)),
            forall|i: int| 0 <= i < errors@.len() ==> (#[trigger] errors@[i] is InvalidGlobParse || errors@[i] is InvalidGlobCompile),
    {
        let ghost old_active = self.active(at);
        let ghost views = lines@.map_values(|l: String| l@);
        let mut new_globs: Vec<GlobKey> = Vec::new();
        let mut errors: Vec<Error> = Vec::new();
        let mut i: usize = 0;
        while i < lines.len()
            invariant
                self.wf(),
                i <= lines@.len(),
                views == lines@.map_values(|l: String| l@),
                forall|n: usize| self.active(n) == old(self).active(n),
                segments_kept(*old(self), *self),
                errors@.len() == bad_lines(views.take(i as int)),
                forall|j: int| 0 <= j < errors@.len() ==> (#[trigger] errors@[j] is InvalidGlobParse || errors@[j] is InvalidGlobCompile),
                new_globs@.len() == patterns_of(views.take(i as int)).len(),
                forall|j: int| 0 <= j < new_globs@.len() ==> self.arena.has(#[trigger] new_globs@[j]),
                forall|j: int| 0 <= j < new_globs@.len() ==> chain_from(self.globs(), self.next(), #[trigger] new_globs@[j].0, compiled(patterns_of(views.take(i as int))[j])->Some_0),
            decreases lines@.len() - i,
        {
            let ghost before = self.arena;
            let line = lines[i].as_str();
            proof {
                assert(views.take(i + 1).drop_last() =~= views.take(i as int));
                assert(views.take(i + 1).last() == line@);
            }
            let skip = (line.unicode_len() > 0 && line.get_char(0) == '#') || trim_end(line).unicode_len() == 0;
            let ghost pats0 = patterns_of(views.take(i as int));
            assert(skip == is_skipped(line@));
            if !skip {
                let text = trim_end(line);
                match self.arena.compile_glob(text) {
                    Ok(key) => {
                        proof {
                            assert(compiled(text@) is Some);
                            assert(patterns_of(views.take(i + 1)) == pats0.push(text@));
                            assert(bad_lines(views.take(i + 1)) == bad_lines(views.take(i as int)));
                            assert forall|j: int| 0 <= j < new_globs@.len() implies chain_from(self.globs(), self.next(), #[trigger] new_globs@[j].0, compiled(patterns_of(views.take(i as int))[j])->Some_0) by {
                                crate::glob::lemma_chain_kept(before.globs(), before.next(), self.arena.globs(), self.arena.next(), new_globs@[j].0, compiled(patterns_of(views.take(i as int))[j])->Some_0);
                            }
                        }
                        new_globs.push(key);
                    },
                    Err(e) => {
                        proof {
                            assert(patterns_of(views.take(i + 1)) == pats0);
                            assert(bad_lines(views.take(i + 1)) == bad_lines(views.take(i as int)) + 1);
                        }
                        errors.push(e);
                    },
                }
            } else {
                proof {
                    assert(patterns_of(views.take(i + 1)) == pats0);
                    assert(bad_lines(views.take(i + 1)) == bad_lines(views.take(i as int)));
                }
            }
            i = i + 1;
        }
        proof {
            assert(views.take(lines@.len() as int) =~= views);
        }
        let ghost pats = patterns_of(views);
        let mut list = match self.key_to_globs.remove(&at) {
            Some(v) => v,
            None => Vec::new(),
        };
        let ghost list0 = list@;
        list.append(&mut new_globs);
        self.key_to_globs.insert(at, list);
        proof {
            assert(list0 == old_active);
            assert(self.active(at).take(old_active.len() as int) =~= old_active);
        }
        errors
    }

    /// Whether the entry `name` of directory `parent` is opened.
    pub fn should_open(&self, parent: usize, name: &[u8], is_dir: bool) -> (r: bool)
        requires
            self.wf(),
        ensures
            r == opens(self.globs(), self.next(), self.active(parent), name@),
    {
        if name.len() > 0 && name[0] == 46u8 {
            let gitignore: [u8; 10] = [46u8, 103u8, 105u8, 116u8, 105u8, 103u8, 110u8, 111u8, 114u8, 101u8];
            let mut same = name.len() == 10;
            let mut j: usize = 0;
            while same && j < 10
                invariant
                    j <= 10,
                    gitignore@ == gitignore_name(),
                    same ==> name@.len() == 10 && name@.subrange(0, j as int) == gitignore_name().subrange(0, j as int),
                    !same ==> name@ != gitignore_name(),
                decreases 10 - j,
            {
                if name[j] != gitignore[j] {
                    same = false;
                } else {
                    proof {
                        assert(name@.subrange(0, j + 1) =~= name@.subrange(0, j as int).push(name@[j as int]));
                        assert(gitignore_name().subrange(0, j + 1) =~= gitignore_name().subrange(0, j as int).push(gitignore_name()[j as int]));
                    }
                }
                j = j + 1;
            }
            if !same {
                return false;
            }
            proof {
                assert(name@.subrange(0, 10) =~= name@);
                assert(gitignore_name().subrange(0, 10) =~= gitignore_name());
            }
        }
        let ghost ks = self.active(parent);
        let mut keep = false;
        let mut ignore = false;
        match self.key_to_globs.get(&parent) {
            None => {},
            Some(globs) => {
                let mut i: usize = 0;
                while i < globs.len()
                    invariant
                        self.wf(),
                        globs@ == ks,
                        i <= ks.len(),
                        keep == (exists|j: int| 0 <= j < i && file_verdict(self.globs(), self.next(), ks[j].0, name@) == Some(false)),
                        ignore == (exists|j: int| 0 <= j < i && file_verdict(self.globs(), self.next(), ks[j].0, name@) == Some(true)),
                        forall|j: int| 0 <= j < ks.len() ==> self.arena.has(#[trigger] ks[j]),
                    decreases ks.len() - i,
                {
                    match self.arena.match_file(globs[i], name, is_dir) {
                        Some(true) => ignore = true,
                        Some(false) => keep = true,
                        None => {},
                    }
                    i = i + 1;
                }
            },
        }
        keep || !ignore
    }

    /// The segments that apply inside the directory `name` of `parent`, which is entered as
    /// node `child`, are added to those of `child`.
    pub fn open_at(&mut self, parent: usize, name: &[u8], child: usize)
        requires
            old(self).wf(),
        ensures
            final(self).wf(),
            final(self).globs() == old(self).globs(),
            final(self).next() == old(self).next(),
            forall|n: usize| n != child ==> final(self).active(n) == old(self).active(n),
            final(self).active(child) == old(self).active(child) + descend_all(
                old(self).globs(),
                old(self).next(),
                old(self).active(parent),
                name@,
            ),
    {
        let ghost ks = self.active(parent);
        let mut new_globs: Vec<GlobKey> = Vec::new();
        match self.key_to_globs.get(&parent) {
            None => {},
            Some(globs) => {
                let mut i: usize = 0;
                while i < globs.len()
                    invariant
                        self.wf(),
                        globs@ == ks,
                        i <= ks.len(),
                        new_globs@ == descend_all(self.globs(), self.next(), ks.take(i as int), name@),
                        forall|j: int| 0 <= j < ks.len() ==> self.arena.has(#[trigger] ks[j]),
                        forall|j: int| 0 <= j < new_globs@.len() ==> self.arena.has(#[trigger] new_globs@[j]),
                    decreases ks.len() - i,
                {
                    proof {
                        assert(ks.take(i + 1).drop_last() =~= ks.take(i as int));
                    }
                    match self.arena.match_dir(globs[i], name) {
                        Some(found) => {
                            let mut found = found;
                            new_globs.append(&mut found);
                        },
                        None => {},
                    }
                    i = i + 1;
                }
                proof {
                    assert(ks.take(ks.len() as int) =~= ks);
                }
            },
        }
        let mut list = match self.key_to_globs.remove(&child) {
            Some(v) => v,
            None => Vec::new(),
        };
        list.append(&mut new_globs);
        self.key_to_globs.insert(child, list);
    }
}

} // verus!
