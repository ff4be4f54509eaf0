//! The completion index: the names of the programs found on the search
//! path, and the names that a directory offers for the path being typed.

use vstd::prelude::*;
use crate::text::{from_chars, keep_prefixed, prefixed_by, push_char, split_on, split_seq, strings, to_chars};

verus! {

/// What is known of one entry of a directory.
#[derive(Debug, PartialEq, Eq)]
pub struct DirEntry {
    /// The name of the entry, without the directory.
    pub name: String,
    /// Whether the entry is a regular file.
    pub is_file: bool,
    /// Whether the entry is a directory.
    pub is_dir: bool,
    /// The permission bits of the entry.
    pub mode: u32,
}

/// The permission bits that let someone run a file.
pub const EXEC_BITS: u32 = 0o111;

/// Whether the entry is a program: a regular file that someone may run.
pub open spec fn is_binary(e: DirEntry) -> bool {
    e.is_file && e.mode & EXEC_BITS != 0
}

/// The name under which an entry is offered: a directory gets a slash
/// behind its name.
pub open spec fn offered_name(e: DirEntry) -> Seq<char> {
    if e.is_dir {
        e.name@.push('/')
    } else {
        e.name@
    }
}

/// The names of the programs among `entries`, in their order.
pub open spec fn binaries(entries: Seq<DirEntry>) -> Seq<Seq<char>> {
    entries.filter(|e: DirEntry| is_binary(e)).map_values(|e: DirEntry| e.name@)
}

/// The names under which `entries` are offered, in their order.
pub open spec fn listing(entries: Seq<DirEntry>) -> Seq<Seq<char>> {
    entries.map_values(|e: DirEntry| offered_name(e))
}

/// The names of the programs in all of `listings`, directory after
/// directory.
pub open spec fn all_binaries(listings: Seq<Vec<DirEntry>>) -> Seq<Seq<char>>
    decreases listings.len(),
{
    if listings.len() == 0 {
        Seq::empty()
    } else {
        all_binaries(listings.drop_last()) + binaries(listings.last()@)
    }
}

/// The index just behind the last slash of `token`; zero when it has none.
pub open spec fn name_start(token: Seq<char>) -> int
    decreases token.len(),
{
    if token.len() == 0 {
        0
    } else if token.last() == '/' {
        token.len() as int
    } else {
        name_start(token.drop_last())
    }
}

/// The directory that `token` names in front of its last slash, the slash
/// included; the current directory when it has no slash.
pub open spec fn dir_part(token: Seq<char>) -> Seq<char> {
    if name_start(token) == 0 {
        seq!['.']
    } else {
        token.take(name_start(token))
    }
}

/// What `token` holds behind its last slash: the beginning of a name.
pub open spec fn partial_name(token: Seq<char>) -> Seq<char> {
    token.skip(name_start(token))
}

/// The directories that the search path names: its pieces between colons.
pub fn search_dirs(path: &str) -> (dirs: Vec<String>)
    ensures
        strings(dirs@) == split_seq(path@, ':'),
{
    split_on(path, ':')
}

/// The directory whose entries complete `token`: the one that `token`
/// names when it names one, else the one in front of its last slash.
pub fn lookup_dir(token: &str, token_is_dir: bool) -> (dir: String)
    ensures
        dir@ == (if token_is_dir { token@ } else { dir_part(token@) }),
{
    let chars = to_chars(token);
    if token_is_dir {
        return from_chars(&chars);
    }
    let start = find_name_start(&chars);
    if start == 0 {
        let mut dot = String::new();
        push_char(&mut dot, '.');
        dot
    } else {
        let mut dir = chars;
        dir.truncate(start);
        from_chars(&dir)
    }
}

/// The index just behind the last slash of `token`; zero when it has none.
fn find_name_start(token: &Vec<char>) -> (start: usize)
    ensures
        start == name_start(token@),
        start <= token.len(),
{
    let mut i: usize = token.len();
    assert(token@.take(i as int) =~= token@);
    while i > 0 && token[i - 1] != '/'
        invariant
            i <= token.len(),
            name_start(token@) == name_start(token@.take(i as int)),
        decreases i,
    {
        assert(token@.take(i as int).drop_last() =~= token@.take(i - 1));
        i -= 1;
    }
    i
}

/// The names that can complete what is being typed.
pub struct Completion {
    /// The names of the programs on the search path.
    pub cmds: Vec<String>,
}

impl Completion {
    /// The names of the programs on the search path.
    pub open spec fn names(&self) -> Seq<Seq<char>> {
        strings(self.cmds@)
    }

    /// An index without names.
    pub fn init() -> (c: Completion)
        ensures
            c.names() == Seq::<Seq<char>>::empty(),
    {
        let c = Completion { cmds: Vec::new() };
        c
    }

    /// The names of the programs among the entries of one directory.
    pub fn get_binaries(entries: &Vec<DirEntry>) -> (names: Vec<String>)
        ensures
            strings(names@) == binaries(entries@),
    {
        let mut names: Vec<String> = Vec::new();
        let mut i: usize = 0;
        proof {
            reveal(Seq::filter);
        }
        while i < entries.len()
            invariant
                i <= entries.len(),
                strings(names@) == binaries(entries@.take(i as int)),
            decreases entries.len() - i,
        {
            let e = &entries[i];
            if e.is_file && e.mode & EXEC_BITS != 0 {
                names.push(e.name.clone());
            }
            proof {
                reveal(Seq::filter);
                let done = entries@.take(i + 1);
                assert(done.drop_last() =~= entries@.take(i as int));
                let kept = done.drop_last().filter(|e: DirEntry| is_binary(e));
                if is_binary(entries[i as int]) {
                    assert(kept.push(entries[i as int]).map_values(|e: DirEntry| e.name@) =~= kept.map_values(
                        |e: DirEntry| e.name@,
                    ).push(entries[i as int].name@));
                }
            }
            i += 1;
        }
        assert(entries@.take(entries.len() as int) =~= entries@);
        names
    }

    /// Adds the programs of each directory of the search path, given the
    /// entries of each, to the index.
    pub fn get_cmds(&mut self, listings: &Vec<Vec<DirEntry>>)
        ensures
            final(self).names() == old(self).names() + all_binaries(listings@),
    {
        let mut i: usize = 0;
        while i < listings.len()
            invariant
                i <= listings.len(),
                self.names() == old(self).names() + all_binaries(listings@.take(i as int)),
            decreases listings.len() - i,
        {
            let mut found = Self::get_binaries(&listings[i]);
            let ghost had = self.names();
            let ghost more = strings(found@);
            self.cmds.append(&mut found);
            proof {
                let done = listings@.take(i + 1);
                assert(done.drop_last() =~= listings@.take(i as int));
                assert(self.names() =~= had + more);
            }
            i += 1;
        }
        assert(listings@.take(listings.len() as int) =~= listings@);
    }

    /// The names of the index that begin with `prefix`, in the order of the
    /// index.
    pub fn find_cmds_completion(&self, prefix: &String) -> (found: Vec<String>)
        ensures
            strings(found@) == self.names().filter(prefixed_by(prefix@)),
    {
        keep_prefixed(&self.cmds, prefix.as_str())
    }

    /// The names under which the entries of a directory are offered.
    pub fn get_dir(&self, entries: &Vec<DirEntry>) -> (names: Vec<String>)
        ensures
            strings(names@) == listing(entries@),
    {
        let mut names: Vec<String> = Vec::new();
        let mut i: usize = 0;
        while i < entries.len()
            invariant
                i <= entries.len(),
                strings(names@) == listing(entries@.take(i as int)),
            decreases entries.len() - i,
        {
            let e = &entries[i];
            let mut name = e.name.clone();
            if e.is_dir {
                push_char(&mut name, '/');
            }
            names.push(name);
            proof {
                assert(listing(entries@.take(i + 1)) =~= listing(entries@.take(i as int)).push(
                    offered_name(entries[i as int]),
                ));
            }
            i += 1;
        }
        names
    }

    /// The names among `dirs` that begin with `prefix`, in the order of
    /// `dirs`.
    pub fn find_path_completion(&self, dirs: Vec<String>, prefix: &String) -> (found: Vec<String>)
        ensures
            strings(found@) == strings(dirs@).filter(prefixed_by(prefix@)),
    {
        keep_prefixed(&dirs, prefix.as_str())
    }

    /// The names that complete the path `token`, how many characters of
    /// `token` they begin with, and whether `token` names a directory.
    ///
    /// `entries` holds the entries of the directory that `lookup_dir` gives
    /// for `token`. When `token` names a directory, all its entries are
    /// offered. Otherwise those are offered that begin with what `token`
    /// holds behind its last slash.
    pub fn get_paths(&self, token: &String, token_is_dir: bool, entries: &Vec<DirEntry>) -> (r: (
        Vec<String>,
        usize,
        bool,
    ))
        ensures
            r.2 == token_is_dir,
            token_is_dir ==> strings(r.0@) == listing(entries@) && r.1 == 0,
            !token_is_dir ==> strings(r.0@) == listing(entries@).filter(prefixed_by(partial_name(token@)))
                && r.1 == partial_name(token@).len(),
    {
        let names = self.get_dir(entries);
        if token_is_dir {
            return (names, 0, true);
        }
        let chars = to_chars(token.as_str());
        let start = find_name_start(&chars);
        let partial = crate::text::slice_to_string(&chars, start, chars.len());
        let found = self.find_path_completion(names, &partial);
        (found, chars.len() - start, false)
    }
}

} // verus!
