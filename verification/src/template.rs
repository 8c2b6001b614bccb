//! A whole template: the top-level directories and the loose top-level files.

use crate::entities::{
    entries_view, file_entries, file_names_valid, is_valid_name, names_valid, opt_files_view, valid_name,
    walk_tree, DirEntry, DirEntryView, Directory, DirectoryView, EntryType, File, FileView,
};
use crate::error::ContractViolation;
use vstd::prelude::*;

verus! {

/// A template as it is written down: where file contents are kept, the
/// directory trees, and the files that stand beside them.
#[derive(Debug, PartialEq)]
pub struct Template {
    pub template_files_dirs: Option<String>,
    pub directories: Vec<Directory>,
    pub files: Option<Vec<File>>,
}

/// The mathematical value of a `Template`.
pub struct TemplateView {
    pub template_files_dirs: Option<Seq<char>>,
    pub directories: Seq<DirectoryView>,
    pub files: Seq<FileView>,
}

/// The values of a list of directories, in order.
pub open spec fn dirs_view(dirs: Seq<Directory>) -> Seq<DirectoryView> {
    Seq::new(dirs.len(), |i: int| dirs[i]@)
}

/// The values of a list of lists of entries, in order.
pub open spec fn batches_view(batches: Seq<Vec<DirEntry>>) -> Seq<Seq<DirEntryView>> {
    Seq::new(batches.len(), |i: int| entries_view(batches[i]@))
}

/// Each directory flattened, in order.
pub open spec fn walks(dirs: Seq<DirectoryView>) -> Seq<Seq<DirEntryView>> {
    Seq::new(dirs.len(), |i: int| walk_tree(dirs[i]))
}

impl TemplateView {
    /// Every name in every directory tree, and every loose file's name, is
    /// valid.
    pub open spec fn names_valid(self) -> bool {
        &&& forall|i: int|
            0 <= i < self.directories.len() ==> names_valid(#[trigger] self.directories[i])
        &&& file_names_valid(self.files)
    }
}

impl View for Template {
    type V = TemplateView;

    open spec fn view(&self) -> TemplateView {
        TemplateView {
            template_files_dirs: match self.template_files_dirs {
                Some(s) => Some(s@),
                None => None,
            },
            directories: dirs_view(self.directories@),
            files: opt_files_view(self.files),
        }
    }
}

impl Template {
    /// Accepts a template in which every name is valid, and refuses any
    /// other.
    pub fn validate(&self) -> (checked: Result<(), ContractViolation>)
        ensures
            self@.names_valid() ==> checked == Ok::<(), ContractViolation>(()),
            !self@.names_valid() ==> checked == Err::<(), ContractViolation>(
                ContractViolation::InvalidName,
            ),
    {
        let mut i: usize = 0;
        while i < self.directories.len()
            invariant
                i <= self.directories.len(),
                forall|m: int| 0 <= m < i ==> names_valid(#[trigger] self@.directories[m]),
            decreases self.directories.len() - i,
        {
            assert(self@.directories[i as int] == self.directories[i as int]@);
            if self.directories[i].validate().is_err() {
                return Err(ContractViolation::InvalidName);
            }
            i += 1;
        }
        if let Some(files) = &self.files {
            let mut j: usize = 0;
            while j < files.len()
                invariant
                    j <= files.len(),
                    self.files == Some(*files),
                    file_names_valid(self@.files.take(j as int)),
                decreases files.len() - j,
            {
                assert(self@.files[j as int] == files[j as int]@);
                if !is_valid_name(&files[j].name) {
                    assert(!valid_name(self@.files[j as int].name));
                    return Err(ContractViolation::InvalidName);
                }
                assert(self@.files.take(j + 1) =~= self@.files.take(j as int).push(
                    self@.files[j as int],
                ));
                j += 1;
            }
            assert(self@.files.take(j as int) =~= self@.files);
        }
        Ok(())
    }

    /// Flattens each top-level directory: one list of entries per
    /// directory, in the order of the directories.
    pub fn parse_template(&self) -> (batches: Vec<Vec<DirEntry>>)
        ensures
            batches_view(batches@) == walks(self@.directories),
    {
        let mut batches: Vec<Vec<DirEntry>> = Vec::new();
        let mut i: usize = 0;
        while i < self.directories.len()
            invariant
                i <= self.directories.len(),
                batches_view(batches@) =~= walks(self@.directories).take(i as int),
            decreases self.directories.len() - i,
        {
            let ghost before = batches@;
            let batch = self.directories[i].walk();
            batches.push(batch);
            proof {
                let all = walks(self@.directories);
                assert(all.take(i + 1) =~= all.take(i as int).push(all[i as int]));
                assert(batches_view(batches@) =~= batches_view(before).push(entries_view(batch@)));
            }
            i += 1;
        }
        assert(batches_view(batches@) =~= walks(self@.directories));
        batches
    }

    /// The loose top-level files as entries: one `File` entry per file, in
    /// order, each under the file's bare name.
    pub fn file_entries(&self) -> (entries: Vec<DirEntry>)
        ensures
            entries_view(entries@) == file_entries(self@.files),
    {
        let mut entries: Vec<DirEntry> = Vec::new();
        if let Some(files) = &self.files {
            let mut j: usize = 0;
            while j < files.len()
                invariant
                    j <= files.len(),
                    self.files == Some(*files),
                    entries_view(entries@) =~= file_entries(self@.files).take(j as int),
                decreases files.len() - j,
            {
                let ghost before = entries@;
                let entry = DirEntry::new(EntryType::File, files[j].name.clone());
                entries.push(entry);
                proof {
                    let all = file_entries(self@.files);
                    assert(self@.files[j as int] == files[j as int]@);
                    assert(all.take(j + 1) =~= all.take(j as int).push(all[j as int]));
                    assert(entries_view(entries@) =~= entries_view(before).push(entry@));
                }
                j += 1;
            }
        }
        assert(entries_view(entries@) =~= file_entries(self@.files));
        entries
    }
}

} // verus!
