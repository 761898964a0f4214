//! The menu tree and the navigation cursor over it.
//!
//! A page is an ordered list of entries; an entry is either a command or a
//! submenu with its own page. Pages are addressed by the path of entry
//! indices leading to them from the root, and the cursor is such a path.
use vstd::prelude::*;

use crate::keys::alts_match;
use crate::keys::parse_error_matches;
use crate::keys::parse_key;
use crate::keys::parse_modifiers;
use crate::keys::parse_ok;
use crate::keys::Key;
use crate::keys::ModifierState;
use crate::keys::ParseError;
use crate::keys::SingleKey;
use crate::keys::KEYSYM_ESCAPE;

verus! {

/// One menu entry: a command to run, or a submenu to descend into. Entry
/// order within a page is configuration order and decides which of two
/// overlapping chords wins.
pub enum Entry {
    Cmd { key: Key, cmd: String, desc: String, keep_open: bool },
    Recursive { key: Key, submenu: Vec<Entry>, desc: String },
}

/// What a resolved key press asks the session to do.
#[derive(Debug)]
pub enum Action {
    Quit,
    Exec { cmd: String, keep_open: bool },
    Submenu { path: Vec<usize> },
}

/// Errors raised when an initial key sequence cannot be walked; fatal at
/// startup, before any surface appears.
#[derive(Debug)]
pub enum NavError {
    /// A token failed to parse as a chord.
    Parse { err: ParseError },
    /// A token matched no entry of the page it was resolved against.
    InvalidKeySequence { token: String },
    /// A token before the last one resolved to a command.
    NotASubmenu { token: String },
    /// The sequence held no token at all.
    EmptySequence,
}

/// The chord of an entry.
pub open spec fn entry_key(e: Entry) -> Key {
    match e {
        Entry::Cmd { key, .. } => key,
        Entry::Recursive { key, .. } => key,
    }
}

/// The entry's chord matches the observed (keysym, modifier-set) pair.
pub open spec fn entry_matches(e: Entry, sym: u32, mods: ModifierState) -> bool {
    alts_match(entry_key(e).alts(), sym, mods)
}

/// The position of the first entry of `page` whose chord matches, or -1:
/// entries are searched in order and the first match wins.
pub open spec fn first_match(page: Seq<Entry>, sym: u32, mods: ModifierState) -> int
    decreases page.len(),
{
    if page.len() == 0 {
        -1
    } else if entry_matches(page[0], sym, mods) {
        0
    } else if first_match(page.drop_first(), sym, mods) == -1 {
        -1
    } else {
        1 + first_match(page.drop_first(), sym, mods)
    }
}

/// The index path addresses a chain of submenus under `page`.
pub open spec fn path_valid(page: Seq<Entry>, path: Seq<usize>) -> bool
    decreases path.len(),
{
    path.len() == 0 || {
        &&& (path[0] as int) < page.len()
        &&& page[path[0] as int] is Recursive
        &&& path_valid(page[path[0] as int]->Recursive_submenu@, path.drop_first())
    }
}

/// The page addressed by an index path under `page`.
pub open spec fn page_at(page: Seq<Entry>, path: Seq<usize>) -> Seq<Entry>
    decreases path.len(),
{
    if path.len() == 0 {
        page
    } else {
        page_at(page[path[0] as int]->Recursive_submenu@, path.drop_first())
    }
}

/// Entering a submenu entry of a valid page yields a valid path, and the
/// page it addresses is that entry's submenu.
pub proof fn lemma_path_push(page: Seq<Entry>, path: Seq<usize>, i: usize)
    requires
        path_valid(page, path),
        (i as int) < page_at(page, path).len(),
        page_at(page, path)[i as int] is Recursive,
    ensures
        path_valid(page, path.push(i)),
        page_at(page, path.push(i)) == page_at(page, path)[i as int]->Recursive_submenu@,
    decreases path.len(),
{
    let p2 = path.push(i);
    assert(p2.len() == path.len() + 1);
    assert(p2[path.len() as int] == i);
    if path.len() == 0 {
        assert(p2[0] == i);
        assert(p2.drop_first() =~= Seq::<usize>::empty());
        assert(page_at(page, path) == page);
        assert(path_valid(page[i as int]->Recursive_submenu@, Seq::<usize>::empty()));
        assert(page_at(page[i as int]->Recursive_submenu@, Seq::<usize>::empty()) == page[i
            as int]->Recursive_submenu@);
        assert(path_valid(page, p2));
        assert(page_at(page, p2) == page[i as int]->Recursive_submenu@);
    } else {
        let sub = page[path[0] as int]->Recursive_submenu@;
        lemma_path_push(sub, path.drop_first(), i);
        assert(p2[0] == path[0]);
        assert(p2.drop_first() =~= path.drop_first().push(i));
        assert(page_at(page, path) == page_at(sub, path.drop_first()));
        assert(path_valid(page, p2));
        assert(page_at(page, p2) == page_at(sub, p2.drop_first()));
    }
}

proof fn lemma_first_match_none(page: Seq<Entry>, sym: u32, mods: ModifierState)
    requires
        forall|j: int| 0 <= j < page.len() ==> !entry_matches(#[trigger] page[j], sym, mods),
    ensures
        first_match(page, sym, mods) == -1,
    decreases page.len(),
{
    if page.len() > 0 {
        assert(forall|j: int|
            0 <= j < page.len() - 1 ==> page.drop_first()[j] == page[j + 1]
                && !entry_matches(#[trigger] page.drop_first()[j], sym, mods));
        lemma_first_match_none(page.drop_first(), sym, mods);
    }
}

proof fn lemma_first_match_at(page: Seq<Entry>, sym: u32, mods: ModifierState, i: int)
    requires
        0 <= i < page.len(),
        entry_matches(page[i], sym, mods),
        forall|j: int| 0 <= j < i ==> !entry_matches(#[trigger] page[j], sym, mods),
    ensures
        first_match(page, sym, mods) == i,
    decreases page.len(),
{
    if i == 0 {
    } else {
        assert(!entry_matches(page[0], sym, mods));
        assert(page.drop_first()[i - 1] == page[i]);
        assert(forall|j: int|
            0 <= j < i - 1 ==> page.drop_first()[j] == page[j + 1] && !entry_matches(
                #[trigger] page.drop_first()[j],
                sym,
                mods,
            ));
        lemma_first_match_at(page.drop_first(), sym, mods, i - 1);
    }
}

/// Where some entry of `page` matches, the winner is the first such entry:
/// its position is no later than any matching position, and it matches.
/// With two entries holding overlapping chords, only the earlier one's
/// action can therefore be returned.
pub proof fn lemma_first_match_wins(page: Seq<Entry>, sym: u32, mods: ModifierState, i: int)
    requires
        0 <= i < page.len(),
        entry_matches(page[i], sym, mods),
    ensures
        0 <= first_match(page, sym, mods) <= i,
        entry_matches(page[first_match(page, sym, mods)], sym, mods),
    decreases page.len(),
{
    if entry_matches(page[0], sym, mods) {
        lemma_first_match_at(page, sym, mods, 0);
    } else {
        assert(i != 0);
        assert(page.drop_first()[i - 1] == page[i]);
        lemma_first_match_wins(page.drop_first(), sym, mods, i - 1);
        let f = first_match(page.drop_first(), sym, mods);
        assert(page.drop_first()[f] == page[f + 1]);
    }
}

/// The first entry of `page` whose chord matches the observed pair, if any.
pub fn resolve(page: &Vec<Entry>, sym: u32, modifiers: ModifierState) -> (r: Option<usize>)
    ensures
        match r {
            Some(i) => first_match(page@, sym, modifiers) == i as int && (i as int) < page@.len(),
            None => first_match(page@, sym, modifiers) == -1,
        },
{
    let mut i: usize = 0;
    while i < page.len()
        invariant
            i <= page@.len(),
            forall|j: int| 0 <= j < i ==> !entry_matches(#[trigger] page@[j], sym, modifiers),
        decreases page@.len() - i,
    {
        let key = match &page[i] {
            Entry::Cmd { key, .. } => key,
            Entry::Recursive { key, .. } => key,
        };
        if key.matches(sym, modifiers) {
            proof {
                lemma_first_match_at(page@, sym, modifiers, i as int);
            }
            return Some(i);
        }
        i += 1;
    }
    proof {
        lemma_first_match_none(page@, sym, modifiers);
    }
    None
}

/// The page addressed by `path@.skip(k)` under `page`.
fn page_ref<'a>(page: &'a Vec<Entry>, path: &Vec<usize>, k: usize) -> (r: &'a Vec<Entry>)
    requires
        k <= path@.len(),
        path_valid(page@, path@.skip(k as int)),
    ensures
        r@ == page_at(page@, path@.skip(k as int)),
    decreases path@.len() - k,
{
    if k == path.len() {
        proof {
            assert(path@.skip(k as int) =~= Seq::<usize>::empty());
        }
        page
    } else {
        proof {
            assert(path@.skip(k as int)[0] == path@[k as int]);
            assert(path@.skip(k as int).drop_first() =~= path@.skip(k as int + 1));
        }
        let i = path[k];
        match &page[i] {
            Entry::Recursive { submenu, .. } => page_ref(submenu, path, k + 1),
            _ => {
                proof {
                    assert(false);
                }
                page
            },
        }
    }
}

fn check_path(page: &Vec<Entry>, path: &Vec<usize>, k: usize) -> (r: bool)
    requires
        k <= path@.len(),
    ensures
        r == path_valid(page@, path@.skip(k as int)),
    decreases path@.len() - k,
{
    if k == path.len() {
        proof {
            assert(path@.skip(k as int) =~= Seq::<usize>::empty());
        }
        true
    } else {
        proof {
            assert(path@.skip(k as int)[0] == path@[k as int]);
            assert(path@.skip(k as int).drop_first() =~= path@.skip(k as int + 1));
        }
        let i = path[k];
        if i >= page.len() {
            false
        } else {
            match &page[i] {
                Entry::Recursive { submenu, .. } => check_path(submenu, path, k + 1),
                _ => false,
            }
        }
    }
}

/// An elementwise copy of an index path.
fn copy_path(path: &Vec<usize>) -> (r: Vec<usize>)
    ensures
        r@ == path@,
{
    let mut out: Vec<usize> = Vec::new();
    let mut i: usize = 0;
    while i < path.len()
        invariant
            i <= path@.len(),
            out@ == path@.take(i as int),
        decreases path@.len() - i,
    {
        out.push(path[i]);
        proof {
            assert(out@ =~= path@.take(i as int + 1));
        }
        i += 1;
    }
    proof {
        assert(out@ =~= path@);
    }
    out
}

/// What walking a token sequence from the page at `path` comes to: the page
/// and index of the final matched entry, or the first failing token's
/// position and the way it failed. Every token before the last must resolve
/// to a submenu, which is entered; the final entry is not entered.
pub enum NavOutcome {
    Reached { path: Seq<usize>, index: int },
    BadParse { at: int },
    NoMatch { at: int },
    NotSubmenu { at: int },
    Empty,
}

/// Walks `tokens` from the page addressed by `path`, numbering tokens from
/// `at` for error reporting.
pub open spec fn nav_from(
    root: Seq<Entry>,
    path: Seq<usize>,
    tokens: Seq<Seq<char>>,
    at: int,
) -> NavOutcome
    decreases tokens.len(),
{
    if tokens.len() == 0 {
        NavOutcome::Empty
    } else if !parse_ok(tokens[0]) {
        NavOutcome::BadParse { at }
    } else {
        let sym = parse_key(tokens[0]);
        let mods = parse_modifiers(tokens[0]);
        let page = page_at(root, path);
        let i = first_match(page, sym, mods);
        if i < 0 {
            NavOutcome::NoMatch { at }
        } else if tokens.len() == 1 {
            NavOutcome::Reached { path, index: i }
        } else if page[i] is Recursive {
            nav_from(root, path.push(i as usize), tokens.drop_first(), at + 1)
        } else {
            NavOutcome::NotSubmenu { at }
        }
    }
}

/// Walks a token sequence from the root page.
pub open spec fn nav_spec(root: Seq<Entry>, tokens: Seq<Seq<char>>) -> NavOutcome {
    nav_from(root, Seq::empty(), tokens, 0)
}

/// The menu tree, immutable after construction, with the navigation cursor:
/// the path of the page currently displayed.
pub struct Menu {
    root: Vec<Entry>,
    current: Vec<usize>,
}

impl Menu {
    /// The root page's entries.
    pub closed spec fn root_entries(self) -> Seq<Entry> {
        self.root@
    }

    /// The path of the current page.
    pub closed spec fn cur_path(self) -> Seq<usize> {
        self.current@
    }

    /// The cursor addresses a page that exists in the tree.
    pub open spec fn wf(self) -> bool {
        path_valid(self.root_entries(), self.cur_path())
    }

    /// The entries of the current page.
    pub open spec fn current_page(self) -> Seq<Entry> {
        page_at(self.root_entries(), self.cur_path())
    }

    /// A menu over the given root entries, positioned at the root page.
    pub fn new(root: Vec<Entry>) -> (r: Menu)
        ensures
            r.wf(),
            r.root_entries() == root@,
            r.cur_path() == Seq::<usize>::empty(),
    {
        let m = Menu { root, current: Vec::new() };
        proof {
            assert(m.cur_path() =~= Seq::<usize>::empty());
        }
        m
    }

    /// The entries of the current page, for rendering.
    pub fn current_entries(&self) -> (r: &Vec<Entry>)
        requires
            self.wf(),
        ensures
            r@ == self.current_page(),
    {
        proof {
            assert(self.current@.skip(0) =~= self.current@);
        }
        page_ref(&self.root, &self.current, 0)
    }

    /// The entries of the page addressed by `path`.
    pub fn entries_at(&self, path: &Vec<usize>) -> (r: &Vec<Entry>)
        requires
            path_valid(self.root_entries(), path@),
        ensures
            r@ == page_at(self.root_entries(), path@),
    {
        proof {
            assert(path@.skip(0) =~= path@);
        }
        page_ref(&self.root, path, 0)
    }

    /// Whether `path` addresses a page of the tree.
    pub fn is_valid_path(&self, path: &Vec<usize>) -> (r: bool)
        ensures
            r == path_valid(self.root_entries(), path@),
    {
        proof {
            assert(path@.skip(0) =~= path@);
        }
        check_path(&self.root, path, 0)
    }

    /// Repoints the cursor: the only mutation navigation performs.
    pub fn set_page(&mut self, path: Vec<usize>)
        requires
            path_valid(old(self).root_entries(), path@),
        ensures
            final(self).wf(),
            final(self).root_entries() == old(self).root_entries(),
            final(self).cur_path() == path@,
    {
        self.current = path;
    }

    /// Resolves a key press against the current page: Escape always quits,
    /// otherwise the first entry whose chord matches the observed pair
    /// decides, and an unmatched press yields nothing.
    pub fn get_action(&self, modifiers: ModifierState, sym: u32) -> (r: Option<Action>)
        requires
            self.wf(),
        ensures
            sym == KEYSYM_ESCAPE ==> (r matches Some(a) && a is Quit),
            sym != KEYSYM_ESCAPE ==> ((r is Some) <==> first_match(
                self.current_page(),
                sym,
                modifiers,
            ) >= 0),
            sym != KEYSYM_ESCAPE && first_match(self.current_page(), sym, modifiers) >= 0 ==> ({
                let i = first_match(self.current_page(), sym, modifiers);
                let e = self.current_page()[i];
                match r {
                    Some(a) => match a {
                        Action::Exec { cmd, keep_open } => e matches Entry::Cmd {
                            cmd: ec,
                            keep_open: ek,
                            ..
                        } && cmd@ == ec@ && keep_open == ek,
                        Action::Submenu { path } => e is Recursive && path@ == self.cur_path().push(
                            i as usize,
                        ) && path_valid(self.root_entries(), path@),
                        Action::Quit => false,
                    },
                    None => false,
                }
            }),
    {
        if sym == KEYSYM_ESCAPE {
            return Some(Action::Quit);
        }
        let page = self.current_entries();
        match resolve(page, sym, modifiers) {
            None => None,
            Some(i) => match &page[i] {
                Entry::Cmd { cmd, keep_open, .. } => Some(
                    Action::Exec { cmd: cmd.clone(), keep_open: *keep_open },
                ),
                Entry::Recursive { .. } => {
                    proof {
                        lemma_path_push(self.root_entries(), self.cur_path(), i);
                    }
                    let mut path = copy_path(&self.current);
                    path.push(i);
                    Some(Action::Submenu { path })
                },
            },
        }
    }

    /// Walks an initial token sequence from the root: every token but the
    /// last must resolve to a submenu, which is entered; the final token's
    /// resolution is returned without entering it, so a trailing command
    /// fires exactly once. On any error the cursor is left where it was.
    pub fn navigate_to_sequence(&mut self, tokens: &Vec<String>) -> (r: Result<Action, NavError>)
        requires
            old(self).wf(),
        ensures
            final(self).wf(),
            final(self).root_entries() == old(self).root_entries(),
            ({
                let toks = tokens@.map_values(|t: String| t@);
                let out = nav_spec(old(self).root_entries(), toks);
                match r {
                    Ok(a) => out matches NavOutcome::Reached { path, index }
                        && final(self).cur_path() == path && ({
                        let e = page_at(old(self).root_entries(), path)[index];
                        match a {
                            Action::Exec { cmd, keep_open } => e matches Entry::Cmd {
                                cmd: ec,
                                keep_open: ek,
                                ..
                            } && cmd@ == ec@ && keep_open == ek,
                            Action::Submenu { path: sp } => e is Recursive && sp@ == path.push(
                                index as usize,
                            ),
                            Action::Quit => false,
                        }
                    }),
                    Err(e2) => final(self).cur_path() == old(self).cur_path() && (match e2 {
                        NavError::EmptySequence => out is Empty,
                        NavError::Parse { err } => out matches NavOutcome::BadParse { at }
                            && parse_error_matches(err, toks[at]),
                        NavError::InvalidKeySequence { token } => out matches NavOutcome::NoMatch {
                            at,
                        } && token@ == toks[at],
                        NavError::NotASubmenu { token } => out matches NavOutcome::NotSubmenu {
                            at,
                        } && token@ == toks[at],
                    }),
                }
            }),
    {
        let ghost toks = tokens@.map_values(|t: String| t@);
        let ghost root = self.root_entries();
        if tokens.len() == 0 {
            return Err(NavError::EmptySequence);
        }
        let mut path: Vec<usize> = Vec::new();
        let mut k: usize = 0;
        proof {
            assert(path@ =~= Seq::<usize>::empty());
            assert(toks.skip(0) =~= toks);
        }
        while k < tokens.len()
            invariant
                self == old(self),
                self.wf(),
                k < tokens@.len(),
                toks == tokens@.map_values(|t: String| t@),
                root == self.root_entries(),
                path_valid(root, path@),
                nav_spec(root, toks) == nav_from(root, path@, toks.skip(k as int), k as int),
            decreases tokens@.len() - k,
        {
            proof {
                assert(toks.skip(k as int)[0] == toks[k as int]);
                assert(toks[k as int] == tokens@[k as int]@);
            }
            let t = &tokens[k];
            match SingleKey::from_str(t.as_str()) {
                Err(err) => {
                    return Err(NavError::Parse { err });
                },
                Ok(sk) => {
                    proof {
                        assert(path@.skip(0) =~= path@);
                    }
                    let page = page_ref(&self.root, &path, 0);
                    match resolve(page, sk.keysym, sk.modifiers) {
                        None => {
                            return Err(NavError::InvalidKeySequence { token: t.clone() });
                        },
                        Some(i) => {
                            if k == tokens.len() - 1 {
                                let a = match &page[i] {
                                    Entry::Cmd { cmd, keep_open, .. } => Action::Exec {
                                        cmd: cmd.clone(),
                                        keep_open: *keep_open,
                                    },
                                    Entry::Recursive { .. } => {
                                        let mut p2 = copy_path(&path);
                                        p2.push(i);
                                        Action::Submenu { path: p2 }
                                    },
                                };
                                proof {
                                    assert(toks.skip(k as int).len() == 1);
                                }
                                self.current = path;
                                return Ok(a);
                            }
                            match &page[i] {
                                Entry::Recursive { .. } => {
                                    proof {
                                        lemma_path_push(root, path@, i);
                                        assert(toks.skip(k as int).drop_first() =~= toks.skip(
                                            k as int + 1,
                                        ));
                                    }
                                    path.push(i);
                                },
                                _ => {
                                    return Err(NavError::NotASubmenu { token: t.clone() });
                                },
                            }
                        },
                    }
                },
            }
            k += 1;
        }
        proof {
            assert(false);
        }
        Err(NavError::EmptySequence)
    }
}

} // verus!
