//! The tree model and its flattened entries.

use crate::error::ContractViolation;
use vstd::prelude::*;
use vstd::string::StrSliceExecFns;

verus! {

/// A terminal node of the tree: one file to be created.
#[derive(Debug, PartialEq)]
pub struct File {
    pub name: String,
    /// Where the file's content comes from; carried along, never read here.
    pub content: Option<String>,
}

/// A node of the tree that owns its child files and child directories.
#[derive(Debug, PartialEq)]
pub struct Directory {
    pub name: String,
    pub files: Option<Vec<File>>,
    pub directories: Option<Vec<Directory>>,
}

/// What kind of file-system object an entry stands for.
#[derive(Debug, PartialEq, Eq, Clone, Copy, Structural)]
pub enum EntryType {
    Directory,
    File,
    Unknown,
}

/// One flattened entry: a tag and a slash-joined path.
#[derive(Debug, PartialEq)]
pub struct DirEntry {
    pub entry_type: EntryType,
    pub full_path: String,
}

/// The mathematical value of a `File`.
pub struct FileView {
    pub name: Seq<char>,
    pub content: Option<Seq<char>>,
}

/// The mathematical value of a `Directory`: a name, its files in order and
/// its subdirectories in order. An absent list and an empty list are the same
/// thing here.
pub struct DirectoryView {
    pub name: Seq<char>,
    pub files: Seq<FileView>,
    pub directories: Seq<DirectoryView>,
}

/// The mathematical value of a `DirEntry`.
pub struct DirEntryView {
    pub entry_type: EntryType,
    pub full_path: Seq<char>,
}

impl View for File {
    type V = FileView;

    open spec fn view(&self) -> FileView {
        FileView {
            name: self.name@,
            content: match self.content {
                Some(c) => Some(c@),
                None => None,
            },
        }
    }
}

impl View for DirEntry {
    type V = DirEntryView;

    open spec fn view(&self) -> DirEntryView {
        DirEntryView { entry_type: self.entry_type, full_path: self.full_path@ }
    }
}

/// The values of a list of files, in order.
pub open spec fn files_view(files: Seq<File>) -> Seq<FileView> {
    Seq::new(files.len(), |i: int| files[i]@)
}

/// The values of an optional list of files: nothing when it is absent.
pub open spec fn opt_files_view(files: Option<Vec<File>>) -> Seq<FileView> {
    match files {
        Some(v) => files_view(v@),
        None => Seq::empty(),
    }
}

/// The values of a list of entries, in order.
pub open spec fn entries_view(entries: Seq<DirEntry>) -> Seq<DirEntryView> {
    Seq::new(entries.len(), |i: int| entries[i]@)
}

/// The values of a list of strings, in order.
pub open spec fn names_view(names: Seq<String>) -> Seq<Seq<char>> {
    Seq::new(names.len(), |i: int| names[i]@)
}

impl Directory {
    /// The values of the subdirectories, in order; nothing when the list is
    /// absent.
    pub open spec fn subdirs_view(&self) -> Seq<DirectoryView>
        decreases self, 0int,
    {
        match self.directories {
            Some(v) => Seq::new(
                v@.len(),
                |i: int|
                    if 0 <= i < v@.len() {
                        v@[i].tree_view()
                    } else {
                        arbitrary()
                    },
            ),
            None => Seq::empty(),
        }
    }

    /// The value of the whole tree below and including this directory.
    pub open spec fn tree_view(&self) -> DirectoryView
        decreases self, 1int,
    {
        DirectoryView {
            name: self.name@,
            files: opt_files_view(self.files),
            directories: self.subdirs_view(),
        }
    }
}

impl View for Directory {
    type V = DirectoryView;

    open spec fn view(&self) -> DirectoryView {
        self.tree_view()
    }
}


impl DirectoryView {
    /// A leaf directory has no files and no subdirectories.
    pub open spec fn is_leaf(self) -> bool {
        self.files.len() == 0 && self.directories.len() == 0
    }
}

/// The path `name/path`.
pub open spec fn join(name: Seq<char>, path: Seq<char>) -> Seq<char> {
    name + seq!['/'] + path
}

/// The entry `e` moved below a directory called `name`.
pub open spec fn prefixed(name: Seq<char>, e: DirEntryView) -> DirEntryView {
    DirEntryView { entry_type: e.entry_type, full_path: join(name, e.full_path) }
}

/// Every entry of `es`, in order, moved below a directory called `name`.
pub open spec fn prefix_all(name: Seq<char>, es: Seq<DirEntryView>) -> Seq<DirEntryView> {
    Seq::new(es.len(), |i: int| prefixed(name, es[i]))
}

/// One `File` entry per file, in order, each under the file's bare name.
pub open spec fn file_entries(files: Seq<FileView>) -> Seq<DirEntryView> {
    Seq::new(
        files.len(),
        |i: int| DirEntryView { entry_type: EntryType::File, full_path: files[i].name },
    )
}

/// The entries of the first `n` directories of `ds`, one directory after
/// the other.
pub open spec fn walk_first(ds: Seq<DirectoryView>, n: nat) -> Seq<DirEntryView>
    decreases ds, n,
{
    if 0 < n <= ds.len() {
        walk_first(ds, (n - 1) as nat) + walk_tree(ds[n - 1])
    } else {
        Seq::empty()
    }
}

/// The flattened tree: a leaf directory is its own single entry; any other
/// directory yields the entries of its subdirectories in order, then one
/// entry per file in order, all of them below the directory's name.
pub open spec fn walk_tree(d: DirectoryView) -> Seq<DirEntryView>
    decreases d, 0nat,
{
    if d.is_leaf() {
        seq![DirEntryView { entry_type: EntryType::Directory, full_path: d.name }]
    } else {
        prefix_all(d.name, walk_first(d.directories, d.directories.len()) + file_entries(d.files))
    }
}

impl File {
    /// The file's name, as the file is shown.
    pub fn to_string(&self) -> (shown: String)
        ensures
            shown@ == self@.name,
    {
        self.name.clone()
    }
}

impl DirEntry {
    pub fn new(entry_type: EntryType, full_path: String) -> (entry: DirEntry)
        ensures
            entry.entry_type == entry_type,
            entry.full_path == full_path,
    {
        DirEntry { entry_type, full_path }
    }

    pub fn is_file(&self) -> (b: bool)
        ensures
            b == (self@.entry_type == EntryType::File),
    {
        self.entry_type == EntryType::File
    }

    pub fn is_dir(&self) -> (b: bool)
        ensures
            b == (self@.entry_type == EntryType::Directory),
    {
        self.entry_type == EntryType::Directory
    }
}

/// A name is valid where it is not empty and holds no slash.
pub open spec fn valid_name(name: Seq<char>) -> bool {
    name.len() > 0 && forall|i: int| 0 <= i < name.len() ==> name[i] != '/'
}

/// Every file in the list has a valid name.
pub open spec fn file_names_valid(files: Seq<FileView>) -> bool {
    forall|j: int| 0 <= j < files.len() ==> valid_name(#[trigger] files[j].name)
}

/// Every directory and every file of the tree has a valid name.
pub open spec fn names_valid(d: DirectoryView) -> bool
    decreases d,
{
    &&& valid_name(d.name)
    &&& file_names_valid(d.files)
    &&& forall|k: int| 0 <= k < d.directories.len() ==> names_valid(#[trigger] d.directories[k])
}

/// Whether the name is not empty and holds no slash.
pub fn is_valid_name(name: &String) -> (valid: bool)
    ensures
        valid == valid_name(name@),
{
    let text = name.as_str();
    let len = text.unicode_len();
    if len == 0 {
        return false;
    }
    let mut i: usize = 0;
    while i < len
        invariant
            i <= len,
            len == text@.len(),
            text@ == name@,
            forall|k: int| 0 <= k < i ==> name@[k] != '/',
        decreases len - i,
    {
        if text.get_char(i) == '/' {
            return false;
        }
        i += 1;
    }
    true
}

/// The names of the files, in order.
pub open spec fn file_names(files: Seq<FileView>) -> Seq<Seq<char>> {
    Seq::new(files.len(), |i: int| files[i].name)
}

/// The names of the directories, in order.
pub open spec fn dir_names(dirs: Seq<DirectoryView>) -> Seq<Seq<char>> {
    Seq::new(dirs.len(), |i: int| dirs[i].name)
}

/// `name/path` as a fresh string.
fn join_path(name: &String, path: &String) -> (joined: String)
    ensures
        joined@ == join(name@, path@),
{
    let mut joined = name.clone();
    joined.append("/");
    joined.append(path.as_str());
    proof {
        reveal_strlit("/");
        assert("/"@ =~= seq!['/']);
    }
    joined
}

impl Directory {
    /// The names of the child directories, then the names of the child files.
    pub fn children_names(&self) -> (children: Vec<String>)
        ensures
            names_view(children@) == dir_names(self@.directories) + file_names(self@.files),
    {
        let mut children: Vec<String> = Vec::new();
        let mut dnames = self.child_dirs_names();
        let mut fnames = self.child_files_names();
        let ghost d = dnames@;
        let ghost f = fnames@;
        children.append(&mut dnames);
        children.append(&mut fnames);
        assert(names_view(children@) =~= names_view(d) + names_view(f));
        children
    }

    /// The names of the child directories, in order.
    pub fn child_dirs_names(&self) -> (children: Vec<String>)
        ensures
            names_view(children@) == dir_names(self@.directories),
    {
        let mut children: Vec<String> = Vec::new();
        if let Some(dirs) = &self.directories {
            let mut i: usize = 0;
            while i < dirs.len()
                invariant
                    i <= dirs.len(),
                    self.directories == Some(*dirs),
                    names_view(children@) =~= dir_names(self@.directories).take(i as int),
                decreases dirs.len() - i,
            {
                let ghost before = children@;
                let name = dirs[i].name.clone();
                children.push(name);
                proof {
                    let all = dir_names(self@.directories);
                    assert(self@.directories[i as int] == dirs[i as int]@);
                    assert(all.take(i + 1) =~= all.take(i as int).push(all[i as int]));
                    assert(names_view(children@) =~= names_view(before).push(name@));
                }
                i += 1;
            }
        }
        assert(names_view(children@) =~= dir_names(self@.directories));
        children
    }

    /// The names of the child files, in order.
    pub fn child_files_names(&self) -> (children: Vec<String>)
        ensures
            names_view(children@) == file_names(self@.files),
    {
        let mut children: Vec<String> = Vec::new();
        if let Some(files) = &self.files {
            let mut i: usize = 0;
            while i < files.len()
                invariant
                    i <= files.len(),
                    self.files == Some(*files),
                    names_view(children@) =~= file_names(self@.files).take(i as int),
                decreases files.len() - i,
            {
                let ghost before = children@;
                let name = files[i].name.clone();
                children.push(name);
                proof {
                    let all = file_names(self@.files);
                    assert(self@.files[i as int] == files[i as int]@);
                    assert(all.take(i + 1) =~= all.take(i as int).push(all[i as int]));
                    assert(names_view(children@) =~= names_view(before).push(name@));
                }
                i += 1;
            }
        }
        assert(names_view(children@) =~= file_names(self@.files));
        children
    }

    /// Accepts a tree in which every name is valid, and refuses any other.
    pub fn validate(&self) -> (checked: Result<(), ContractViolation>)
        ensures
            names_valid(self@) ==> checked == Ok::<(), ContractViolation>(()),
            !names_valid(self@) ==> checked == Err::<(), ContractViolation>(
                ContractViolation::InvalidName,
            ),
        decreases self,
    {
        if !is_valid_name(&self.name) {
            return Err(ContractViolation::InvalidName);
        }
        if let Some(files) = &self.files {
            let mut j: usize = 0;
            while j < files.len()
                invariant
                    j <= files.len(),
                    self.files == Some(*files),
                    file_names_valid(self@.files.take(j as int)),
                decreases files.len() - j,
            {
                if !is_valid_name(&files[j].name) {
                    assert(self@.files[j as int] == files[j as int]@);
                    assert(!valid_name(self@.files[j as int].name));
                    return Err(ContractViolation::InvalidName);
                }
                proof {
                    assert(self@.files[j as int] == files[j as int]@);
                    assert(self@.files.take(j + 1) =~= self@.files.take(j as int).push(
                        self@.files[j as int],
                    ));
                }
                j += 1;
            }
            assert(self@.files.take(j as int) =~= self@.files);
        }
        if let Some(dirs) = &self.directories {
            let mut k: usize = 0;
            while k < dirs.len()
                invariant
                    k <= dirs.len(),
                    self.directories == Some(*dirs),
                    forall|m: int| 0 <= m < k ==> names_valid(#[trigger] self@.directories[m]),
                decreases dirs.len() - k,
            {
                assert(self@.directories[k as int] == dirs[k as int]@);
                if dirs[k].validate().is_err() {
                    return Err(ContractViolation::InvalidName);
                }
                k += 1;
            }
        }
        Ok(())
    }

    /// Flattens the tree into its ordered list of entries.
    pub fn walk(&self) -> (tree: Vec<DirEntry>)
        ensures
            entries_view(tree@) == walk_tree(self@),
        decreases self,
    {
        let mut found: Vec<DirEntry> = Vec::new();
        let mut childless = true;
        if let Some(dirs) = &self.directories {
            childless = dirs.len() == 0;
            let mut i: usize = 0;
            while i < dirs.len()
                invariant
                    i <= dirs.len(),
                    self.directories == Some(*dirs),
                    entries_view(found@) == walk_first(self@.directories, i as nat),
                decreases dirs.len() - i,
            {
                let mut ch = dirs[i].walk();
                let ghost before = found@;
                let ghost added = ch@;
                found.append(&mut ch);
                proof {
                    assert(entries_view(before + added) =~= entries_view(before) + entries_view(
                        added,
                    ));
                    assert(self@.directories[i as int] == dirs[i as int]@);
                }
                i += 1;
            }
        }
        assert(entries_view(found@) == walk_first(self@.directories, self@.directories.len()));
        if let Some(files) = &self.files {
            childless = childless && files.len() == 0;
            let mut j: usize = 0;
            while j < files.len()
                invariant
                    j <= files.len(),
                    self.files == Some(*files),
                    entries_view(found@) =~= walk_first(
                        self@.directories,
                        self@.directories.len(),
                    ) + file_entries(self@.files).take(j as int),
                decreases files.len() - j,
            {
                let ghost before = found@;
                let entry = DirEntry::new(EntryType::File, files[j].name.clone());
                found.push(entry);
                proof {
                    let all = file_entries(self@.files);
                    assert(self@.files[j as int] == files[j as int]@);
                    assert(entry@ == all[j as int]);
                    assert(all.take(j + 1) =~= all.take(j as int).push(all[j as int]));
                    assert(entries_view(found@) =~= entries_view(before).push(entry@));
                }
                j += 1;
            }
        }
        assert(entries_view(found@) =~= walk_first(self@.directories, self@.directories.len())
            + file_entries(self@.files));
        let mut tree: Vec<DirEntry> = Vec::new();
        if childless {
            tree.push(DirEntry::new(EntryType::Directory, self.name.clone()));
            assert(entries_view(tree@) =~= walk_tree(self@));
            return tree;
        }
        let mut k: usize = 0;
        while k < found.len()
            invariant
                k <= found.len(),
                entries_view(tree@) =~= prefix_all(self.name@, entries_view(found@)).take(k as int),
            decreases found.len() - k,
        {
            let ghost before = tree@;
            let entry = DirEntry::new(
                found[k].entry_type,
                join_path(&self.name, &found[k].full_path),
            );
            tree.push(entry);
            proof {
                let all = prefix_all(self.name@, entries_view(found@));
                assert(entry@ == all[k as int]);
                assert(all.take(k + 1) =~= all.take(k as int).push(all[k as int]));
                assert(entries_view(tree@) =~= entries_view(before).push(entry@));
            }
            k += 1;
        }
        assert(entries_view(tree@) =~= walk_tree(self@));
        tree
    }
}

} // verus!
