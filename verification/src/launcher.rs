//! The launcher's list of desktop entries and the finder's list of files: what a
//! query keeps, what the arrows select, what is started, and the status line.
use vstd::prelude::*;
use crate::input::text::append_str;
use crate::search::{decimal, decimal_text, next_selection, previous_selection, select_next, select_previous, trim, trimmed};
use crate::watcher::texts;

verus! {

/// An application that a desktop entry describes.
pub struct DesktopEntry {
    pub name: String,
    pub command: Vec<String>,
    pub icon: Option<std::path::PathBuf>,
    pub description: Option<String>,
    pub terminal: bool,
}

/// The desktop entries found on the system.
pub struct DesktopEntries {
    pub items: Vec<DesktopEntry>,
}

/// An application with its desktop-entry identifier.
pub struct Application {
    pub id: String,
    pub name: String,
    pub command: Vec<String>,
    pub icon: Option<std::path::PathBuf>,
    pub description: Option<String>,
}

/// The applications found on the system.
pub struct Applications {
    pub items: Vec<Application>,
}

/// The indices of the names that `neo_frizbee` matches against `needle` with its
/// default configuration, best match first.
pub uninterp spec fn fuzzy_matches(needle: Seq<char>, names: Seq<Seq<char>>) -> Seq<usize>;

/// `neo_frizbee::Matcher::new(needle, &Config::default()).match_list(names)`,
/// keeping the index of each match. The crate panics on more than `u32::MAX`
/// names. The result is named, not computed here.
#[verifier::external_body]
fn match_names(needle: &str, names: &Vec<String>) -> (r: Vec<usize>)
    requires
        names@.len() <= u32::MAX,
    ensures
        r@ == fuzzy_matches(needle@, texts(names@)),
{
    let mut matcher = neo_frizbee::Matcher::new(needle, &neo_frizbee::Config::default());
    matcher.match_list(names).into_iter().map(|m| m.index as usize).collect()
}

/// The terminal that runs entries which ask for one.
pub open spec fn terminal_prefix() -> Seq<Seq<char>> {
    seq!["ghostty"@, "-e"@]
}

pub open spec fn entry_names(entries: Seq<DesktopEntry>) -> Seq<Seq<char>> {
    entries.map_values(|e: DesktopEntry| e.name@)
}

/// The entries that a query keeps: all of them for an empty query, else those
/// that the fuzzy matcher finds for the trimmed query.
pub open spec fn query_matches(entries: Seq<DesktopEntry>, query: Seq<char>) -> Seq<usize> {
    if query.len() == 0 {
        Seq::new(entries.len(), |i: int| i as usize)
    } else {
        fuzzy_matches(trimmed(query), entry_names(entries))
    }
}

/// The command that starting the selected entry runs, if it has one: entries
/// that ask for a terminal run inside it.
pub open spec fn spawn_spec(entries: Seq<DesktopEntry>, filtered: Seq<usize>, selected: Option<usize>) -> Option<
    Seq<Seq<char>>,
> {
    match selected {
        Some(ix) => if ix < filtered.len() && filtered[ix as int] < entries.len() && entries[filtered[ix as int] as int].command@.len()
            > 0 {
            let e = entries[filtered[ix as int] as int];
            if e.terminal {
                Some(terminal_prefix() + texts(e.command@))
            } else {
                Some(texts(e.command@))
            }
        } else {
            None
        },
        None => None,
    }
}

/// The launcher's list: the entries, those that the query keeps, and the
/// selected one among those.
pub struct LauncherList {
    pub entries: Vec<DesktopEntry>,
    pub filtered: Vec<usize>,
    pub selected: Option<usize>,
}

fn copy_strings(v: &Vec<String>) -> (r: Vec<String>)
    ensures
        texts(r@) == texts(v@),
{
    let mut r: Vec<String> = Vec::new();
    let mut i: usize = 0;
    while i < v.len()
        invariant
            i <= v@.len(),
            texts(r@) == texts(v@.take(i as int)),
        decreases v@.len() - i,
    {
        let ghost before = r@;
        r.push(v[i].clone());
        proof {
            assert(v@.take(i + 1) =~= v@.take(i as int).push(v@[i as int]));
            assert(texts(r@) =~= texts(before).push(v@[i as int]@));
            assert(texts(v@.take(i + 1)) =~= texts(v@.take(i as int)).push(v@[i as int]@));
        }
        i = i + 1;
    }
    proof {
        assert(v@.take(v@.len() as int) =~= v@);
    }
    r
}

impl LauncherList {
    /// A list that keeps every entry, with the first one selected.
    pub fn new(entries: Vec<DesktopEntry>) -> (r: LauncherList)
        ensures
            r.entries@ == entries@,
            r.filtered@ == Seq::new(entries@.len(), |i: int| i as usize),
            r.selected == if entries@.len() > 0 {
                Some(0usize)
            } else {
                None
            },
    {
        let n = entries.len();
        let mut filtered: Vec<usize> = Vec::new();
        let mut i: usize = 0;
        while i < n
            invariant
                i <= n,
                filtered@ == Seq::new(i as nat, |k: int| k as usize),
            decreases n - i,
        {
            filtered.push(i);
            proof {
                assert(filtered@ =~= Seq::new((i + 1) as nat, |k: int| k as usize));
            }
            i = i + 1;
        }
        let selected = if n > 0 {
            Some(0)
        } else {
            None
        };
        LauncherList { entries, filtered, selected }
    }

    /// The names of the entries, in order.
    pub fn names(&self) -> (r: Vec<String>)
        ensures
            texts(r@) == entry_names(self.entries@),
    {
        let mut r: Vec<String> = Vec::new();
        let mut i: usize = 0;
        while i < self.entries.len()
            invariant
                i <= self.entries@.len(),
                texts(r@) == entry_names(self.entries@.take(i as int)),
            decreases self.entries@.len() - i,
        {
            let ghost before = r@;
            r.push(self.entries[i].name.clone());
            proof {
                assert(self.entries@.take(i + 1) =~= self.entries@.take(i as int).push(self.entries@[i as int]));
                assert(texts(r@) =~= texts(before).push(self.entries@[i as int].name@));
                assert(entry_names(self.entries@.take(i + 1)) =~= entry_names(self.entries@.take(i as int)).push(
                    self.entries@[i as int].name@,
                ));
            }
            i = i + 1;
        }
        proof {
            assert(self.entries@.take(self.entries@.len() as int) =~= self.entries@);
        }
        r
    }

    /// The query changed: keep the entries that it matches and select the first.
    pub fn apply_query(&mut self, query: &str)
        requires
            old(self).entries@.len() <= u32::MAX,
        ensures
            final(self).entries@ == old(self).entries@,
            final(self).filtered@ == query_matches(old(self).entries@, query@),
            final(self).selected == if final(self).filtered@.len() > 0 {
                Some(0usize)
            } else {
                None
            },
    {
        let matched = if query.as_bytes().len() == 0 {
            proof {
                crate::input::text::lemma_encode_utf8_len(query@);
                crate::input::text::lemma_len_le_byte_len(query@);
            }
            let mut v: Vec<usize> = Vec::new();
            let n = self.entries.len();
            let mut i: usize = 0;
            while i < n
                invariant
                    i <= n,
                    v@ == Seq::new(i as nat, |k: int| k as usize),
                decreases n - i,
            {
                v.push(i);
                proof {
                    assert(v@ =~= Seq::new((i + 1) as nat, |k: int| k as usize));
                }
                i = i + 1;
            }
            v
        } else {
            proof {
                crate::input::text::lemma_encode_utf8_len(query@);
                if query@.len() == 0 {
                    assert(query@ =~= Seq::<char>::empty());
                }
            }
            let needle = trim(query);
            let names = self.names();
            proof {
                assert(texts(names@).len() == names@.len());
                assert(entry_names(self.entries@).len() == self.entries@.len());
            }
            match_names(needle.as_str(), &names)
        };
        self.selected = if matched.len() > 0 {
            Some(0)
        } else {
            None
        };
        self.filtered = matched;
    }

    /// The down arrow.
    pub fn select_next(&mut self)
        ensures
            final(self).entries@ == old(self).entries@,
            final(self).filtered@ == old(self).filtered@,
            final(self).selected == next_selection(old(self).selected, old(self).filtered@.len()),
    {
        self.selected = select_next(self.selected, self.filtered.len());
    }

    /// The up arrow.
    pub fn select_previous(&mut self)
        ensures
            final(self).entries@ == old(self).entries@,
            final(self).filtered@ == old(self).filtered@,
            final(self).selected == previous_selection(old(self).selected, old(self).filtered@.len()),
    {
        self.selected = select_previous(self.selected, self.filtered.len());
    }

    /// The command that starting the selected entry runs.
    pub fn spawn_command(&self) -> (r: Option<Vec<String>>)
        ensures
            match spawn_spec(self.entries@, self.filtered@, self.selected) {
                Some(c) => r matches Some(v) && texts(v@) == c,
                None => r is None,
            },
    {
        let ix = match self.selected {
            Some(ix) => ix,
            None => return None,
        };
        if ix >= self.filtered.len() {
            return None;
        }
        let e = self.filtered[ix];
        if e >= self.entries.len() {
            return None;
        }
        let entry = &self.entries[e];
        if entry.command.len() == 0 {
            return None;
        }
        let command = copy_strings(&entry.command);
        if entry.terminal {
            let mut r: Vec<String> = Vec::new();
            r.push("ghostty".to_owned());
            r.push("-e".to_owned());
            let ghost prefix = texts(r@);
            proof {
                assert(prefix =~= terminal_prefix());
            }
            let mut i: usize = 0;
            while i < command.len()
                invariant
                    i <= command@.len(),
                    texts(r@) == terminal_prefix() + texts(command@.take(i as int)),
                decreases command@.len() - i,
            {
                let ghost before = r@;
                r.push(command[i].clone());
                proof {
                    assert(command@.take(i + 1) =~= command@.take(i as int).push(command@[i as int]));
                    assert(texts(r@) =~= texts(before).push(command@[i as int]@));
                    assert(texts(command@.take(i + 1)) =~= texts(command@.take(i as int)).push(command@[i as int]@));
                }
                i = i + 1;
            }
            proof {
                assert(command@.take(command@.len() as int) =~= command@);
            }
            Some(r)
        } else {
            Some(command)
        }
    }

    /// Whether entry `ix` of the kept ones is drawn as selected.
    pub fn is_selected(&self, ix: usize) -> (r: bool)
        ensures
            r == (self.selected == Some(ix)),
    {
        match self.selected {
            Some(s) => s == ix,
            None => false,
        }
    }
}

/// Whether a description is worth showing: it holds more than white space.
pub fn shows_description(description: &Option<String>) -> (r: bool)
    ensures
        r == match description {
            Some(d) => trimmed(d@).len() > 0,
            None => false,
        },
{
    match description {
        Some(d) => {
            let t = trim(d.as_str());
            proof {
                crate::input::text::lemma_encode_utf8_len(t@);
                crate::input::text::lemma_len_le_byte_len(t@);
            }
            if t.as_str().as_bytes().len() > 0 {
                proof {
                    if t@.len() == 0 {
                        assert(t@ =~= Seq::<char>::empty());
                    }
                }
                true
            } else {
                false
            }
        },
        None => false,
    }
}

// ----- the finder -----

/// Where the file index starts and what it reads.
pub struct SearchOptions {
    pub base_path: String,
    pub enable_content_indexing: bool,
}

impl Default for SearchOptions {
    fn default() -> (r: SearchOptions)
        ensures
            r.base_path@ == "/"@,
            !r.enable_content_indexing,
    {
        SearchOptions { base_path: "/".to_owned(), enable_content_indexing: false }
    }
}

/// Whether a result is a file or a directory.
#[derive(Clone, Copy, Debug, PartialEq, Eq, Structural)]
pub enum SearchItemKind {
    File,
    Directory,
}

/// A file or directory that a search found.
pub struct SearchItem {
    pub name: String,
    pub path: std::path::PathBuf,
    pub kind: SearchItemKind,
    pub score: i32,
}

/// What a search found, and how much the index holds.
pub struct SearchResult {
    pub items: Vec<SearchItem>,
    pub matched: usize,
    pub indexed_files: usize,
    pub indexed_dirs: usize,
}

impl SearchResult {
    /// The result of a search for nothing.
    pub fn empty() -> (r: SearchResult)
        ensures
            r.items@.len() == 0,
            r.matched == 0,
            r.indexed_files == 0,
            r.indexed_dirs == 0,
    {
        SearchResult { items: Vec::new(), matched: 0, indexed_files: 0, indexed_dirs: 0 }
    }
}

/// The text that a search looks for: the query without white space at either
/// end, or none when nothing is left.
pub fn search_needle(query: &str) -> (r: Option<String>)
    ensures
        match r {
            Some(n) => n@ == trimmed(query@) && n@.len() > 0,
            None => trimmed(query@).len() == 0,
        },
{
    let t = trim(query);
    proof {
        crate::input::text::lemma_encode_utf8_len(t@);
        crate::input::text::lemma_len_le_byte_len(t@);
    }
    if t.as_str().as_bytes().len() == 0 {
        None
    } else {
        proof {
            if t@.len() == 0 {
                assert(t@ =~= Seq::<char>::empty());
            }
        }
        Some(t)
    }
}

/// The finder's state: the latest search, its results and the index progress.
pub struct FinderState {
    /// Identifies the newest requested search.
    pub generation: u64,
    pub searching: bool,
    pub indexing: bool,
    pub entries: Vec<SearchItem>,
    pub selected: Option<usize>,
    pub hovered: Option<usize>,
    pub indexed: usize,
    pub matched: usize,
}

impl FinderState {
    /// The state when the finder opens: indexing, nothing found yet.
    pub fn new() -> (r: FinderState)
        ensures
            r.generation == 0 && !r.searching && r.indexing,
            r.entries@.len() == 0 && r.selected is None && r.hovered is None,
            r.indexed == 0 && r.matched == 0,
    {
        FinderState {
            generation: 0,
            searching: false,
            indexing: true,
            entries: Vec::new(),
            selected: None,
            hovered: None,
            indexed: 0,
            matched: 0,
        }
    }

    /// A search is requested for `needle`. A newer request supersedes any
    /// running one. An empty needle clears the results at once; otherwise the
    /// search to run is returned with its generation.
    pub fn start_search(&mut self, needle: &str) -> (r: Option<u64>)
        ensures
            final(self).generation == (if old(self).generation == u64::MAX {
                0
            } else {
                old(self).generation + 1
            }),
            final(self).indexing == old(self).indexing,
            final(self).indexed == old(self).indexed,
            needle@.len() == 0 ==> r is None && !final(self).searching && final(self).entries@.len() == 0
                && final(self).selected is None && final(self).hovered is None && final(self).matched == 0,
            needle@.len() > 0 ==> r == Some(final(self).generation) && final(self).searching && final(self).entries@
                == old(self).entries@ && final(self).selected == old(self).selected && final(self).hovered == old(
                self,
            ).hovered && final(self).matched == old(self).matched,
    {
        self.generation = self.generation.wrapping_add(1);
        self.searching = true;
        proof {
            crate::input::text::lemma_encode_utf8_len(needle@);
            crate::input::text::lemma_len_le_byte_len(needle@);
        }
        if needle.as_bytes().len() == 0 {
            self.searching = false;
            self.selected = None;
            self.hovered = None;
            self.entries = Vec::new();
            self.matched = 0;
            return None;
        }
        proof {
            if needle@.len() == 0 {
                assert(needle@ =~= Seq::<char>::empty());
            }
        }
        Some(self.generation)
    }

    /// A search finished. Its result is ignored when a newer search was
    /// requested meanwhile; a failed search keeps the previous results.
    pub fn finish_search(&mut self, generation: u64, result: Option<SearchResult>) -> (applied: bool)
        ensures
            applied == (generation == old(self).generation),
            final(self).generation == old(self).generation,
            final(self).indexing == old(self).indexing,
            !applied ==> final(self).searching == old(self).searching && final(self).entries@ == old(self).entries@
                && final(self).selected == old(self).selected && final(self).indexed == old(self).indexed
                && final(self).matched == old(self).matched && final(self).hovered == old(self).hovered,
            applied ==> !final(self).searching,
            applied && result is None ==> final(self).entries@ == old(self).entries@ && final(self).selected == old(
                self,
            ).selected && final(self).indexed == old(self).indexed && final(self).matched == old(self).matched
                && final(self).hovered == old(self).hovered,
            applied && result is Some ==> final(self).entries@ == result->0.items@ && final(self).selected == (if result->0.items@.len()
                > 0 {
                Some(0usize)
            } else {
                None
            }) && final(self).hovered is None && final(self).indexed == result->0.indexed_files
                && final(self).matched == result->0.matched,
    {
        if generation != self.generation {
            return false;
        }
        self.searching = false;
        match result {
            Some(result) => {
                self.selected = if result.items.len() > 0 {
                    Some(0)
                } else {
                    None
                };
                self.hovered = None;
                self.indexed = result.indexed_files;
                self.matched = result.matched;
                self.entries = result.items;
            },
            None => {},
        }
        true
    }

    /// The index reported its progress (`None` when it cannot be read).
    /// Returns whether to keep polling.
    pub fn on_progress(&mut self, progress: Option<(bool, usize)>) -> (keep_polling: bool)
        ensures
            match progress {
                Some((scanning, files)) => final(self).indexing == scanning && final(self).indexed == files
                    && keep_polling == scanning,
                None => !final(self).indexing && final(self).indexed == old(self).indexed && !keep_polling,
            },
            final(self).generation == old(self).generation,
            final(self).searching == old(self).searching,
            final(self).entries@ == old(self).entries@,
            final(self).selected == old(self).selected,
            final(self).matched == old(self).matched,
    {
        match progress {
            Some((scanning, files)) => {
                self.indexing = scanning;
                self.indexed = files;
                scanning
            },
            None => {
                self.indexing = false;
                false
            },
        }
    }

    /// The down arrow.
    pub fn select_next(&mut self)
        ensures
            final(self).selected == next_selection(old(self).selected, old(self).entries@.len()),
            final(self).entries@ == old(self).entries@,
    {
        self.selected = select_next(self.selected, self.entries.len());
    }

    /// The up arrow.
    pub fn select_previous(&mut self)
        ensures
            final(self).selected == previous_selection(old(self).selected, old(self).entries@.len()),
            final(self).entries@ == old(self).entries@,
    {
        self.selected = select_previous(self.selected, self.entries.len());
    }

    /// The selected result.
    pub fn selected_entry(&self) -> (r: Option<&SearchItem>)
        ensures
            match self.selected {
                Some(i) => if i < self.entries@.len() {
                    r == Some(&self.entries@[i as int])
                } else {
                    r is None
                },
                None => r is None,
            },
    {
        match self.selected {
            Some(i) => if i < self.entries.len() {
                Some(&self.entries[i])
            } else {
                None
            },
            None => None,
        }
    }

    /// The left part of the status line.
    pub fn status_text(&self) -> (r: String)
        ensures
            r@ == if self.indexing {
                "Indexing..."@
            } else if self.searching {
                "Searching..."@
            } else {
                decimal(self.matched as nat) + " matches"@
            },
    {
        if self.indexing {
            "Indexing...".to_owned()
        } else if self.searching {
            "Searching...".to_owned()
        } else {
            let mut r = decimal_text(self.matched);
            append_str(&mut r, " matches");
            r
        }
    }

    /// The right part of the status line.
    pub fn files_text(&self) -> (r: String)
        ensures
            r@ == decimal(self.indexed as nat) + if self.indexing {
                " files indexed"@
            } else {
                " files"@
            },
    {
        let mut r = decimal_text(self.indexed);
        if self.indexing {
            append_str(&mut r, " files indexed");
        } else {
            append_str(&mut r, " files");
        }
        r
    }
}

/// Starting the selected entry runs the command of the entry that the
/// selection points to through the kept list (`entries[filtered[ix]]`): that
/// command as it is, or inside `ghostty -e` when the entry asks for a terminal;
/// nothing when that entry has no command, the selection is past the kept list
/// or nothing is selected.
pub proof fn lemma_spawn_runs_selected_entry(entries: Seq<DesktopEntry>, filtered: Seq<usize>, ix: usize)
    ensures
        spawn_spec(entries, filtered, None) is None,
        ix >= filtered.len() ==> spawn_spec(entries, filtered, Some(ix)) is None,
        ix < filtered.len() && filtered[ix as int] < entries.len() ==> {
            let e = entries[filtered[ix as int] as int];
            &&& e.command@.len() == 0 ==> spawn_spec(entries, filtered, Some(ix)) is None
            &&& e.command@.len() > 0 && !e.terminal ==> spawn_spec(entries, filtered, Some(ix)) == Some(
                texts(e.command@),
            )
            &&& e.command@.len() > 0 && e.terminal ==> spawn_spec(entries, filtered, Some(ix)) == Some(
                seq!["ghostty"@, "-e"@] + texts(e.command@),
            )
        },
{
}

/// What is started depends on the selected kept entry alone: two lists that
/// agree on that entry start the same command, whatever the other entries are.
pub proof fn lemma_spawn_depends_on_selected_entry(
    entries: Seq<DesktopEntry>,
    other: Seq<DesktopEntry>,
    filtered: Seq<usize>,
    ix: usize,
)
    requires
        entries.len() == other.len(),
        ix < filtered.len() && filtered[ix as int] < entries.len() ==> entries[filtered[ix as int] as int]
            == other[filtered[ix as int] as int],
    ensures
        spawn_spec(entries, filtered, Some(ix)) == spawn_spec(other, filtered, Some(ix)),
{
}

} // verus!
