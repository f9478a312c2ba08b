//! The remote files of a connection as its panel shows them.
use vstd::prelude::*;
use vstd::slice::slice_subrange;

use crate::text::{chars_of, option_text, text_of, texts};
use crate::text_map::{TextMap, TextSet};

verus! {

/// A file or directory on the remote side.
#[derive(Debug)]
pub struct RemoteEntry {
    pub name: String,
    pub full_path: String,
    pub is_dir: bool,
    pub size: u64,
    pub modified: String,
}

/// The state of the remote files of one connection.
#[derive(Debug)]
pub struct SftpUiState {
    pub current_path: String,
    pub status: String,
    pub directory_cache: TextMap<Vec<RemoteEntry>>,
    pub expanded_directories: TextSet,
    pub loading_directories: TextSet,
    pub directory_errors: TextMap<String>,
    pub selected_path: Option<String>,
    pub preview: Option<String>,
    pub selected_entries: TextSet,
    pub home_dir: String,
    pub home_dir_resolved: bool,
}

/// The state of the remote files, with its texts as characters.
#[verifier::ext_equal]
pub struct SftpView {
    pub current_path: Seq<char>,
    pub status: Seq<char>,
    pub cache: Map<Seq<char>, Vec<RemoteEntry>>,
    pub expanded: Set<Seq<char>>,
    pub loading: Set<Seq<char>>,
    pub errors: Map<Seq<char>, String>,
    pub selected_path: Option<Seq<char>>,
    pub preview: Option<Seq<char>>,
    pub selected: Set<Seq<char>>,
    pub home_dir: Seq<char>,
    pub home_dir_resolved: bool,
}

impl View for SftpUiState {
    type V = SftpView;

    open spec fn view(&self) -> SftpView {
        SftpView {
            current_path: self.current_path@,
            status: self.status@,
            cache: self.directory_cache@,
            expanded: self.expanded_directories@,
            loading: self.loading_directories@,
            errors: self.directory_errors@,
            selected_path: option_text(self.selected_path),
            preview: option_text(self.preview),
            selected: self.selected_entries@,
            home_dir: self.home_dir@,
            home_dir_resolved: self.home_dir_resolved,
        }
    }
}

impl SftpView {
    /// The state before the connection is there: the root, expanded.
    pub open spec fn connecting(status: Seq<char>) -> SftpView {
        SftpView {
            current_path: "/"@,
            status,
            cache: Map::empty(),
            expanded: set!["/"@],
            loading: Set::empty(),
            errors: Map::empty(),
            selected_path: None,
            preview: None,
            selected: Set::empty(),
            home_dir: "/"@,
            home_dir_resolved: false,
        }
    }

    /// A directory starts to load: an earlier failure is forgotten.
    pub open spec fn loads(self, path: Seq<char>) -> SftpView {
        SftpView {
            loading: self.loading.insert(path),
            errors: self.errors.remove(path),
            ..self
        }
    }

    /// The directories of the list that are neither known nor loading start to
    /// load.
    pub open spec fn loads_missing(self, paths: Seq<Seq<char>>) -> SftpView
        decreases paths.len(),
    {
        if paths.len() == 0 {
            self
        } else {
            let before = self.loads_missing(paths.drop_last());
            if before.knows(paths.last()) {
                before
            } else {
                before.loads(paths.last())
            }
        }
    }

    /// The directories that then start to load, in order.
    pub open spec fn missing(self, paths: Seq<Seq<char>>) -> Seq<Seq<char>>
        decreases paths.len(),
    {
        if paths.len() == 0 {
            Seq::empty()
        } else if self.loads_missing(paths.drop_last()).knows(paths.last()) {
            self.missing(paths.drop_last())
        } else {
            self.missing(paths.drop_last()).push(paths.last())
        }
    }

    /// Whether the entries of a directory are there or on their way.
    pub open spec fn knows(self, path: Seq<char>) -> bool {
        self.cache.contains_key(path) || self.loading.contains(path)
    }

    /// The directories of the list are expanded.
    pub open spec fn expands(self, paths: Seq<Seq<char>>) -> SftpView {
        SftpView { expanded: self.expanded.union(paths.to_set()), ..self }
    }

    /// The panel goes to a directory, whose ancestors it expands.
    pub open spec fn goes_to(self, path: Seq<char>, ancestors: Seq<Seq<char>>) -> SftpView {
        SftpView {
            current_path: path,
            selected_path: None,
            preview: None,
            selected: Set::empty(),
            ..self
        }.expands(ancestors).loads(path)
    }

    /// Whether a directory of the tree is shown with its entries.
    pub open spec fn open_in_tree(self, path: Seq<char>) -> bool {
        self.expanded.contains(path) && !self.errors.contains_key(path) && self.cache.contains_key(
            path,
        )
    }
}

/// Loading what is missing asks for each directory once and for none that was
/// known before, and all of them are then known or on their way.
pub proof fn missing_directories_are_asked_for_once(state: SftpView, paths: Seq<Seq<char>>)
    ensures
        state.missing(paths).no_duplicates(),
        forall|i: int|
            0 <= i < state.missing(paths).len() ==> !state.knows(
                #[trigger] state.missing(paths)[i],
            ),
        forall|path: Seq<char>| #[trigger]
            state.loads_missing(paths).knows(path) == (state.knows(path) || paths.contains(path)),
    decreases paths.len(),
{
    if paths.len() > 0 {
        let init = paths.drop_last();
        let last = paths.last();
        missing_directories_are_asked_for_once(state, init);
        lemma_missing_is_known(state, init);
        assert(paths =~= init.push(last));
        let before = state.loads_missing(init);
        assert forall|path: Seq<char>| #[trigger]
            state.loads_missing(paths).knows(path) == (state.knows(path) || paths.contains(
            path,
        )) by {
            assert(before.knows(path) == (state.knows(path) || init.contains(path)));
            if init.contains(path) {
                let k = choose|k: int| 0 <= k < init.len() && init[k] == path;
                assert(paths[k] == path);
            }
            if paths.contains(path) {
                let k = choose|k: int| 0 <= k < paths.len() && paths[k] == path;
                if k < init.len() {
                    assert(init[k] == path);
                }
            }
            assert(paths[paths.len() - 1] == last);
        }
        if !before.knows(last) {
            assert(!state.missing(init).contains(last));
        }
    }
}

proof fn lemma_missing_is_known(state: SftpView, paths: Seq<Seq<char>>)
    ensures
        forall|path: Seq<char>| #[trigger]
            state.missing(paths).contains(path) ==> state.loads_missing(paths).knows(path),
    decreases paths.len(),
{
    if paths.len() > 0 {
        let init = paths.drop_last();
        lemma_missing_is_known(state, init);
        assert forall|path: Seq<char>| #[trigger] state.missing(paths).contains(path) implies
            state.loads_missing(paths).knows(path) by {
            let all = state.missing(paths);
            let k = choose|k: int| 0 <= k < all.len() && all[k] == path;
            if k < state.missing(init).len() {
                assert(state.missing(init)[k] == path);
                assert(state.missing(init).contains(path));
            }
        }
    }
}

/// The state of the remote files before the connection is there.
pub fn connecting_sftp_state(status: String) -> (r: SftpUiState)
    ensures
        r@ == SftpView::connecting(status@),
{
    let mut expanded_directories = TextSet::new();
    expanded_directories.insert("/".to_string());
    SftpUiState {
        current_path: "/".to_string(),
        status,
        directory_cache: TextMap::new(),
        expanded_directories,
        loading_directories: TextSet::new(),
        directory_errors: TextMap::new(),
        selected_path: None,
        preview: None,
        selected_entries: TextSet::new(),
        home_dir: "/".to_string(),
        home_dir_resolved: false,
    }
}

impl SftpUiState {
    /// A directory starts to load.
    pub fn begin_directory_load(&mut self, path: &str)
        ensures
            final(self)@ == old(self)@.loads(path@),
    {
        self.loading_directories.insert(path.to_string());
        let _ = self.directory_errors.remove(path);
    }

    /// Expands the directories of the list.
    pub fn expand_to(&mut self, paths: &Vec<String>)
        ensures
            final(self)@ == old(self)@.expands(texts(paths@)),
    {
        let ghost before = self@;
        let ghost all = texts(paths@);
        let mut i: usize = 0;
        proof {
            assert(all.take(0).to_set() =~= Set::empty());
            assert(self@ =~= before.expands(all.take(0)));
        }
        while i < paths.len()
            invariant
                i <= paths.len(),
                all == texts(paths@),
                self@ == before.expands(all.take(i as int)),
            decreases paths.len() - i,
        {
            self.expanded_directories.insert(paths[i].clone());
            proof {
                lemma_take_set(all, i as int);
                assert(self@ =~= before.expands(all.take(i + 1)));
            }
            i += 1;
        }
        assert(all.take(i as int) =~= all);
    }

    /// Starts to load the directories of the list that are neither known nor
    /// loading, and returns those.
    fn begin_missing_loads(&mut self, paths: &Vec<String>) -> (r: Vec<String>)
        ensures
            final(self)@ == old(self)@.loads_missing(texts(paths@)),
            texts(r@) == old(self)@.missing(texts(paths@)),
    {
        let ghost before = self@;
        let ghost all = texts(paths@);
        let mut r: Vec<String> = Vec::new();
        let mut i: usize = 0;
        assert(texts(r@) =~= before.missing(all.take(0)));
        while i < paths.len()
            invariant
                i <= paths.len(),
                all == texts(paths@),
                self@ == before.loads_missing(all.take(i as int)),
                texts(r@) == before.missing(all.take(i as int)),
            decreases paths.len() - i,
        {
            let ghost listed = texts(r@);
            assert(all.take(i + 1).drop_last() =~= all.take(i as int));
            assert(all.take(i + 1).last() == paths@[i as int]@);
            let path: &str = paths[i].as_str();
            if !self.directory_cache.contains_key(path) && !self.loading_directories.contains(
                path,
            ) {
                self.begin_directory_load(path);
                r.push(path.to_string());
                assert(texts(r@) =~= listed.push(path@));
            }
            i += 1;
        }
        assert(all.take(i as int) =~= all);
        r
    }

    /// Goes to a directory, given with its ancestors, and returns the directories
    /// whose entries are to be asked for: those ancestors that are missing, then
    /// the directory itself.
    pub fn navigate(&mut self, path: &str, ancestors: &Vec<String>) -> (r: Vec<String>)
        ensures
            final(self)@ == old(self)@.goes_to(path@, texts(ancestors@)).loads_missing(
                texts(ancestors@),
            ),
            texts(r@) == old(self)@.goes_to(path@, texts(ancestors@)).missing(
                texts(ancestors@),
            ).push(path@),
    {
        let ghost before = self@;
        self.current_path = path.to_string();
        self.selected_path = None;
        self.preview = None;
        self.selected_entries.clear();
        self.expand_to(ancestors);
        self.begin_directory_load(path);
        assert(self@ == before.goes_to(path@, texts(ancestors@)));
        let mut requests = self.begin_missing_loads(ancestors);
        let ghost missing = texts(requests@);
        requests.push(path.to_string());
        assert(texts(requests@) =~= missing.push(path@));
        requests
    }

    /// Shows the current directory, given by its ancestors, in the tree, and
    /// returns the directories whose entries are to be asked for.
    pub fn reveal_current(&mut self, ancestors: &Vec<String>) -> (r: Vec<String>)
        ensures
            final(self)@ == old(self)@.expands(texts(ancestors@)).loads_missing(texts(ancestors@)),
            texts(r@) == old(self)@.expands(texts(ancestors@)).missing(texts(ancestors@)),
    {
        self.expand_to(ancestors);
        self.begin_missing_loads(ancestors)
    }

    /// Closes a directory of the tree that is shown with its entries, and else
    /// opens it. Tells whether its entries are to be asked for.
    pub fn toggle_tree_directory(&mut self, path: &str) -> (r: bool)
        ensures
            r == (!old(self)@.open_in_tree(path@) && (old(self)@.errors.contains_key(path@)
                || !old(self)@.cache.contains_key(path@)) && !old(self)@.loading.contains(path@)),
            final(self)@ == (if old(self)@.open_in_tree(path@) {
                (SftpView { expanded: old(self)@.expanded.remove(path@), ..old(self)@ })
            } else {
                let opened = SftpView {
                    expanded: old(self)@.expanded.insert(path@),
                    ..old(self)@
                };
                if r {
                    opened.loads(path@)
                } else {
                    opened
                }
            }),
    {
        let has_error: bool = self.directory_errors.contains_key(path);
        let has_cache: bool = self.directory_cache.contains_key(path);
        if self.expanded_directories.contains(path) && !has_error && has_cache {
            let _ = self.expanded_directories.remove(path);
            return false;
        }
        self.expanded_directories.insert(path.to_string());
        let should_load: bool = (has_error || !has_cache) && !self.loading_directories.contains(
            path,
        );
        if should_load {
            self.begin_directory_load(path);
        }
        should_load
    }

    /// Marks an entry as the selected one.
    pub fn mark_selected(&mut self, path: &str)
        ensures
            final(self)@ == (SftpView { selected_path: Some(path@), ..old(self)@ }),
    {
        self.selected_path = Some(path.to_string());
    }

    /// Marks a file as the selected one, and adds it to the selection or takes it
    /// out.
    pub fn select_file(&mut self, path: &str)
        ensures
            final(self)@ == (SftpView {
                selected_path: Some(path@),
                selected: if old(self)@.selected.contains(path@) {
                    old(self)@.selected.remove(path@)
                } else {
                    old(self)@.selected.insert(path@)
                },
                ..old(self)@
            }),
    {
        let ghost before = self@.selected;
        self.mark_selected(path);
        if !self.selected_entries.remove(path) {
            self.selected_entries.insert(path.to_string());
            assert(self@.selected =~= before.insert(path@));
        }
    }

    /// Puts an entry into the selection or out of it.
    pub fn toggle_entry(&mut self, path: String, checked: bool)
        ensures
            final(self)@ == (SftpView {
                selected: if checked {
                    old(self)@.selected.insert(path@)
                } else {
                    old(self)@.selected.remove(path@)
                },
                ..old(self)@
            }),
    {
        if checked {
            self.selected_entries.insert(path);
        } else {
            let _ = self.selected_entries.remove(path.as_str());
        }
    }
}

/// The full paths of entries.
pub open spec fn entry_paths(entries: Seq<RemoteEntry>) -> Seq<Seq<char>> {
    entries.map_values(|e: RemoteEntry| e.full_path@)
}

impl SftpView {
    /// The entries of the current directory, as far as they are known.
    pub open spec fn entries(self) -> Seq<RemoteEntry> {
        if self.cache.contains_key(self.current_path) {
            self.cache[self.current_path]@
        } else {
            Seq::empty()
        }
    }
}

proof fn lemma_take_set(all: Seq<Seq<char>>, i: int)
    requires
        0 <= i < all.len(),
    ensures
        all.take(i + 1).to_set() == all.take(i).to_set().insert(all[i]),
{
    let shorter = all.take(i);
    let longer = all.take(i + 1);
    assert(longer =~= shorter.push(all[i]));
    assert forall|x: Seq<char>| longer.to_set().contains(x) == shorter.to_set().insert(
        all[i],
    ).contains(x) by {
        if longer.contains(x) {
            let k = choose|k: int| 0 <= k < longer.len() && longer[k] == x;
            if k < i {
                assert(shorter[k] == x);
            }
        }
        if shorter.contains(x) {
            let k = choose|k: int| 0 <= k < shorter.len() && shorter[k] == x;
            assert(longer[k] == x);
        }
        assert(longer[i] == all[i]);
    }
    assert(longer.to_set() =~= shorter.to_set().insert(all[i]));
}

impl SftpUiState {
    /// Puts all entries of the current directory into the selection, or empties
    /// it.
    pub fn toggle_all_entries(&mut self, checked: bool)
        ensures
            final(self)@ == (SftpView {
                selected: if checked {
                    old(self)@.selected.union(entry_paths(old(self)@.entries()).to_set())
                } else {
                    Set::empty()
                },
                ..old(self)@
            }),
    {
        let ghost before = self@;
        if !checked {
            self.selected_entries.clear();
            return ;
        }
        let ghost paths = entry_paths(before.entries());
        match self.directory_cache.get(self.current_path.as_str()) {
            Some(entries) => {
                let mut i: usize = 0;
                proof {
                    assert(paths.take(0).to_set() =~= Set::empty());
                    assert(self@.selected =~= before.selected.union(paths.take(0).to_set()));
                }
                while i < entries.len()
                    invariant
                        i <= entries.len(),
                        paths == entry_paths(entries@),
                        self@ == (SftpView { selected: self.selected_entries@, ..before }),
                        self.selected_entries@ == before.selected.union(
                            paths.take(i as int).to_set(),
                        ),
                    decreases entries.len() - i,
                {
                    self.selected_entries.insert(entries[i].full_path.clone());
                    proof {
                        lemma_take_set(paths, i as int);
                        assert(paths[i as int] == entries@[i as int].full_path@);
                        assert(self.selected_entries@ =~= before.selected.union(
                            paths.take(i + 1).to_set(),
                        ));
                    }
                    i += 1;
                }
                assert(paths.take(i as int) =~= paths);
            },
            None => {
                assert(paths.to_set() =~= Set::empty());
                assert(self@.selected =~= before.selected.union(paths.to_set()));
            },
        }
    }
}

/// A path without the slashes at its end.
pub open spec fn without_slashes(path: Seq<char>) -> Seq<char>
    decreases path.len(),
{
    if path.len() > 0 && path.last() == '/' {
        without_slashes(path.drop_last())
    } else {
        path
    }
}

/// The place of the last slash, or nothing where there is none.
pub open spec fn last_slash(path: Seq<char>) -> Option<int>
    decreases path.len(),
{
    if path.len() == 0 {
        None
    } else if path.last() == '/' {
        Some(path.len() - 1)
    } else {
        last_slash(path.drop_last())
    }
}

/// The directory that holds the entry at a path: the root for the root, for what
/// lies in it and for a path without a slash.
pub open spec fn parent_path(path: Seq<char>) -> Seq<char> {
    let trimmed = without_slashes(path);
    match last_slash(trimmed) {
        Some(i) => if i == 0 {
            "/"@
        } else {
            trimmed.take(i)
        },
        None => "/"@,
    }
}

/// The directory that holds the entry at a path.
pub fn sftp_parent_path(path: &str) -> (r: String)
    ensures
        r@ == parent_path(path@),
{
    let chars = chars_of(path);
    let mut n: usize = chars.len();
    assert(chars@.take(n as int) =~= path@);
    while n > 0 && chars[n - 1] == '/'
        invariant
            n <= chars.len(),
            chars@ == path@,
            without_slashes(path@) == without_slashes(chars@.take(n as int)),
        decreases n,
    {
        assert(chars@.take(n as int).drop_last() =~= chars@.take(n - 1));
        n -= 1;
    }
    let ghost trimmed = chars@.take(n as int);
    assert(n > 0 ==> trimmed.last() == chars@[n - 1]);
    assert(without_slashes(path@) == trimmed);
    let mut i: usize = n;
    assert(trimmed.take(i as int) =~= trimmed);
    while i > 0
        invariant
            i <= n <= chars.len(),
            trimmed == chars@.take(n as int),
            last_slash(trimmed) == last_slash(trimmed.take(i as int)),
            without_slashes(path@) == trimmed,
        decreases i,
    {
        assert(trimmed.take(i as int).last() == chars@[i - 1]);
        assert(trimmed.take(i as int).drop_last() =~= trimmed.take(i - 1));
        i -= 1;
        if chars[i] == '/' {
            assert(trimmed.take(i as int) =~= chars@.take(i as int));
            return if i == 0 {
                "/".to_string()
            } else {
                text_of(slice_subrange(chars.as_slice(), 0, i))
            };
        }
    }
    "/".to_string()
}

/// The parent of the root is the root, and the parent of an entry of a directory
/// other than the root is that directory.
pub proof fn parent_of_an_entry_is_its_directory(directory: Seq<char>, name: Seq<char>)
    requires
        name.len() > 0,
        forall|i: int| 0 <= i < name.len() ==> #[trigger] name[i] != '/',
    ensures
        parent_path("/"@) == "/"@,
        directory.len() > 0 ==> parent_path(directory + "/"@ + name) == directory,
        parent_path("/"@ + name) == "/"@,
{
    reveal_strlit("/");
    let root = "/"@;
    assert(root.drop_last() =~= Seq::empty());
    assert(without_slashes(root) =~= Seq::empty()) by {
        reveal_with_fuel(without_slashes, 2);
    }
    let path = directory + root + name;
    assert(path.last() == name.last());
    lemma_last_slash(directory + root, name);
    assert((directory + root).last() == '/');
    assert(path.take(directory.len() as int) =~= directory);
    let top = root + name;
    assert(top.last() == name.last());
    lemma_last_slash(root, name);
}

proof fn lemma_last_slash(front: Seq<char>, name: Seq<char>)
    requires
        front.len() > 0,
        front.last() == '/',
        forall|i: int| 0 <= i < name.len() ==> #[trigger] name[i] != '/',
    ensures
        last_slash(front + name) == Some(front.len() - 1),
    decreases name.len(),
{
    if name.len() == 0 {
        assert(front + name =~= front);
    } else {
        assert((front + name).last() == name.last());
        assert((front + name).drop_last() =~= front + name.drop_last());
        lemma_last_slash(front, name.drop_last());
    }
}

/// Whether an entry is shown: hidden ones, whose name starts with a dot, only
/// where that is wanted.
pub open spec fn is_shown(show_hidden: bool) -> spec_fn(RemoteEntry) -> bool {
    |entry: RemoteEntry| show_hidden || !(entry.name@.len() > 0 && entry.name@[0] == '.')
}

/// What a list of entries says where it is empty.
#[derive(Debug)]
pub enum ListState {
    Loading,
    Failed(String),
    Empty,
}

/// The rows of the list of entries.
#[derive(Debug)]
pub struct EntryList<'a> {
    pub entries: Vec<&'a RemoteEntry>,
    /// Whether there are entries and all of them are selected.
    pub all_selected: bool,
    pub state: ListState,
    /// The directory above the current one.
    pub parent: String,
}

pub open spec fn entry_values(entries: Seq<&RemoteEntry>) -> Seq<RemoteEntry> {
    entries.map_values(|e: &RemoteEntry| *e)
}

impl SftpUiState {
    /// The entries of the current directory, as far as they are known.
    pub fn current_entries(&self) -> (r: &[RemoteEntry])
        ensures
            r@ == self@.entries(),
    {
        match self.directory_cache.get(self.current_path.as_str()) {
            Some(entries) => entries.as_slice(),
            None => {
                let none: &[RemoteEntry] = &[];
                assert(none@ =~= Seq::empty());
                none
            },
        }
    }
}

fn is_shown_entry(entry: &RemoteEntry, show_hidden: bool) -> (r: bool)
    ensures
        r == is_shown(show_hidden)(*entry),
{
    if show_hidden {
        return true;
    }
    let name = chars_of(entry.name.as_str());
    !(name.len() > 0 && name[0] == '.')
}

/// The list of entries as the panel shows it.
pub fn entry_list<'a>(sftp: &'a SftpUiState, show_hidden: bool) -> (r: EntryList<'a>)
    ensures
        entry_values(r.entries@) == sftp@.entries().filter(is_shown(show_hidden)),
        r.all_selected == (r.entries@.len() > 0 && forall|i: int|
            0 <= i < r.entries@.len() ==> sftp@.selected.contains(
                (#[trigger] r.entries@[i]).full_path@,
            )),
        match r.state {
            ListState::Loading => sftp@.loading.contains(sftp@.current_path),
            ListState::Failed(reason) => !sftp@.loading.contains(sftp@.current_path)
                && sftp@.errors.contains_key(sftp@.current_path)
                && sftp@.errors[sftp@.current_path]@ == reason@,
            ListState::Empty => !sftp@.loading.contains(sftp@.current_path)
                && !sftp@.errors.contains_key(sftp@.current_path),
        },
        r.parent@ == parent_path(sftp@.current_path),
{
    let all: &'a [RemoteEntry] = sftp.current_entries();
    let mut entries: Vec<&'a RemoteEntry> = Vec::new();
    let mut all_selected: bool = true;
    let mut i: usize = 0;
    proof {
        reveal(Seq::filter);
        assert(entry_values(entries@) =~= all@.take(0).filter(is_shown(show_hidden)));
    }
    while i < all.len()
        invariant
            i <= all.len(),
            entry_values(entries@) == all@.take(i as int).filter(is_shown(show_hidden)),
            all_selected == forall|k: int|
                0 <= k < entries@.len() ==> sftp@.selected.contains(
                    (#[trigger] entries@[k]).full_path@,
                ),
        decreases all.len() - i,
    {
        proof {
            reveal(Seq::filter);
            assert(all@.take(i + 1).drop_last() =~= all@.take(i as int));
            assert(all@.take(i + 1).last() == all@[i as int]);
        }
        let entry: &'a RemoteEntry = &all[i];
        if is_shown_entry(entry, show_hidden) {
            let ghost before = entries@;
            entries.push(entry);
            assert(entry_values(entries@) =~= entry_values(before).push(*entry));
            let selected: bool = sftp.selected_entries.contains(entry.full_path.as_str());
            proof {
                assert(entries@[before.len() as int] == entry);
                assert forall|k: int| 0 <= k < before.len() implies entries@[k] == #[trigger] before[k] by {}
            }
            all_selected = all_selected && selected;
        }
        i += 1;
    }
    assert(all@.take(i as int) =~= all@);
    let current: &str = sftp.current_path.as_str();
    let state = if sftp.loading_directories.contains(current) {
        ListState::Loading
    } else {
        match sftp.directory_errors.get(current) {
            Some(reason) => ListState::Failed(reason.clone()),
            None => ListState::Empty,
        }
    };
    let any: bool = entries.len() > 0;
    EntryList {
        entries,
        all_selected: any && all_selected,
        state,
        parent: sftp_parent_path(current),
    }
}

/// A worker that connects shows the root, which is open in the tree, and knows of no entry
/// yet; asking for a directory drops the error that it had, and nothing else.
pub proof fn files_start_at_the_root(
    status: Seq<char>,
    files: SftpView,
    path: Seq<char>,
    other: Seq<char>,
)
    ensures
        SftpView::connecting(status).current_path == "/"@,
        SftpView::connecting(status).status == status,
        SftpView::connecting(status).expanded.contains(path) <==> path == "/"@,
        !SftpView::connecting(status).knows(path),
        SftpView::connecting(status).selected == Set::<Seq<char>>::empty(),
        !SftpView::connecting(status).home_dir_resolved,
        files.loads(path).knows(path),
        files.loads(path).loading.contains(path),
        !files.loads(path).errors.contains_key(path),
        other != path ==> files.loads(path).knows(other) == files.knows(other),
        other != path ==> files.loads(path).errors.contains_key(other)
            == files.errors.contains_key(other),
        files.loads(path).current_path == files.current_path && files.loads(path).cache
            == files.cache && files.loads(path).selected == files.selected,
{
}

/// A directory is open in the tree where it was opened, its entries are known and no error
/// came with them. A name that starts with a dot is hidden unless all are shown.
pub proof fn hidden_names_start_with_a_dot(files: SftpView, path: Seq<char>, entry: RemoteEntry)
    ensures
        files.open_in_tree(path) <==> files.expanded.contains(path) && files.cache.contains_key(
            path,
        ) && !files.errors.contains_key(path),
        is_shown(true)(entry),
        entry.name@.len() == 0 ==> is_shown(false)(entry),
        entry.name@.len() > 0 ==> (is_shown(false)(entry) <==> entry.name@[0] != '.'),
        files.cache.contains_key(files.current_path) ==> files.entries()
            == files.cache[files.current_path]@,
        !files.cache.contains_key(files.current_path) ==> files.entries().len() == 0,
{
}

/// Slashes at the end of a remote path count for nothing.
pub proof fn slashes_at_the_end_count_for_nothing(path: Seq<char>)
    ensures
        parent_path(path.push('/')) == parent_path(path),
{
    assert(path.push('/').drop_last() =~= path);
}

} // verus!
