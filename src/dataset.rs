use crate::labels::{label_spec, LabelMap};
use vstd::prelude::*;
use vstd::string::StrSliceExecFns;

verus! {

/// One image of the dataset: where its file is, and the label of its class.
#[derive(Clone, Debug)]
pub struct FileItem {
    pub image_path: String,
    pub label: usize,
}

/// A file found in a class directory: its name and its full path.
pub struct FileEntry {
    pub name: String,
    pub path: String,
}

/// An entry of the dataset's root directory; `files` lists a directory's readable files.
pub struct DirEntry {
    pub name: String,
    pub is_dir: bool,
    pub files: Vec<FileEntry>,
}

/// The file name has the extension "png": it ends in ".png" after a non-empty stem.
pub open spec fn png_name(s: Seq<char>) -> bool {
    s.len() > 4 && s.subrange(s.len() - 4, s.len() as int) == seq!['.', 'p', 'n', 'g']
}

/// The items of the PNG files of one class directory, in listing order.
pub open spec fn png_items(files: Seq<FileEntry>, label: usize) -> Seq<FileItem>
    decreases files.len(),
{
    if files.len() == 0 {
        seq![]
    } else {
        let rest = png_items(files.drop_last(), label);
        let f = files.last();
        if png_name(f.name@) {
            rest.push(FileItem { image_path: f.path, label })
        } else {
            rest
        }
    }
}

/// The items that one root entry contributes: none unless it is a directory named by
/// one letter of the alphabet.
pub open spec fn entry_items(alpha: Seq<char>, e: DirEntry) -> Seq<FileItem> {
    if e.is_dir {
        match label_spec(alpha, e.name@) {
            Some(l) => png_items(e.files@, l as usize),
            None => seq![],
        }
    } else {
        seq![]
    }
}

/// The items of a whole root listing, entry after entry.
pub open spec fn scan_items(alpha: Seq<char>, entries: Seq<DirEntry>) -> Seq<FileItem>
    decreases entries.len(),
{
    if entries.len() == 0 {
        seq![]
    } else {
        scan_items(alpha, entries.drop_last()) + entry_items(alpha, entries.last())
    }
}

/// `it` comes from a file with the "png" extension inside a directory entry of the
/// listing whose name is one letter of the alphabet, and carries that letter's label.
pub open spec fn scanned_from(alpha: Seq<char>, entries: Seq<DirEntry>, it: FileItem) -> bool {
    exists|d: int, f: int|
        0 <= d < entries.len() && 0 <= f < entries[d].files@.len() && entries[d].is_dir
            && label_spec(alpha, entries[d].name@) == Some(it.label as int) && png_name(
            #[trigger] entries[d].files@[f].name@,
        ) && entries[d].files@[f].path == it.image_path
}

proof fn lemma_png_items_origin(files: Seq<FileEntry>, label: usize)
    ensures
        forall|k: int|
            #![trigger png_items(files, label)[k]]
            0 <= k < png_items(files, label).len() ==> exists|f: int|
                0 <= f < files.len() && png_name(#[trigger] files[f].name@) && files[f].path
                    == png_items(files, label)[k].image_path && png_items(
                    files,
                    label,
                )[k].label == label,
    decreases files.len(),
{
    if files.len() > 0 {
        let init = files.drop_last();
        lemma_png_items_origin(init, label);
        let items = png_items(files, label);
        let rest = png_items(init, label);
        let last = files.last();
        if png_name(last.name@) {
            assert(items == rest.push(FileItem { image_path: last.path, label }));
        } else {
            assert(items == rest);
        }
        assert forall|k: int| #![trigger items[k]] 0 <= k < items.len() implies exists|f: int|
            0 <= f < files.len() && png_name(#[trigger] files[f].name@) && files[f].path
                == items[k].image_path && items[k].label == label by {
            if k < rest.len() {
                let f = choose|f: int|
                    0 <= f < init.len() && png_name(#[trigger] init[f].name@) && init[f].path
                        == rest[k].image_path && rest[k].label == label;
                assert(files[f] == init[f]);
                assert(items[k] == rest[k]);
            } else {
                let f = files.len() - 1;
                assert(files[f] == last);
                assert(items[k] == FileItem { image_path: last.path, label });
            }
        }
    } else {
        assert(png_items(files, label).len() == 0);
    }
}

/// A scan yields only files with the "png" extension from directories named by one
/// letter of the alphabet, each with that letter's label: a directory with another
/// name, a plain file, or a file with another extension never gives an item.
pub proof fn lemma_scan_only_matching(alpha: Seq<char>, entries: Seq<DirEntry>)
    requires
        alpha.len() <= usize::MAX,
    ensures
        forall|k: int|
            0 <= k < scan_items(alpha, entries).len() ==> scanned_from(
                alpha,
                entries,
                #[trigger] scan_items(alpha, entries)[k],
            ),
    decreases entries.len(),
{
    if entries.len() > 0 {
        let init = entries.drop_last();
        lemma_scan_only_matching(alpha, init);
        let e = entries.last();
        let d = entries.len() - 1;
        let items = scan_items(alpha, entries);
        let rest = scan_items(alpha, init);
        let tail = entry_items(alpha, e);
        assert forall|k: int| 0 <= k < items.len() implies scanned_from(
            alpha,
            entries,
            #[trigger] items[k],
        ) by {
            if k < rest.len() {
                assert(items[k] == rest[k]);
                assert(scanned_from(alpha, init, rest[k]));
                let (d0, f0) = choose|d0: int, f0: int|
                    0 <= d0 < init.len() && 0 <= f0 < init[d0].files@.len() && init[d0].is_dir
                        && label_spec(alpha, init[d0].name@) == Some(rest[k].label as int)
                        && png_name(#[trigger] init[d0].files@[f0].name@)
                        && init[d0].files@[f0].path == rest[k].image_path;
                assert(entries[d0] == init[d0]);
            } else {
                let j = k - rest.len();
                assert(items[k] == tail[j]);
                assert(e.is_dir && label_spec(alpha, e.name@) is Some);
                let l = label_spec(alpha, e.name@)->Some_0;
                assert(alpha.contains(e.name@[0]));
                assert(0 <= l < alpha.len());
                lemma_png_items_origin(e.files@, l as usize);
                let f = choose|f: int|
                    0 <= f < e.files@.len() && png_name(#[trigger] e.files@[f].name@)
                        && e.files@[f].path == png_items(e.files@, l as usize)[j].image_path
                        && png_items(e.files@, l as usize)[j].label == l as usize;
                assert(entries[d] == e);
                assert(0 <= l);
                assert(entries[d].files@[f].name@ == e.files@[f].name@);
            }
        }
    }
}

/// Whether a file name has the extension "png" (case-sensitive).
pub fn is_png_name(name: &str) -> (r: bool)
    ensures
        r == png_name(name@),
{
    let n = name.unicode_len();
    if n <= 4 {
        return false;
    }
    let r = name.get_char(n - 4) == '.' && name.get_char(n - 3) == 'p' && name.get_char(n - 2)
        == 'n' && name.get_char(n - 1) == 'g';
    let ghost tail = name@.subrange(n - 4, n as int);
    if r {
        assert(tail =~= seq!['.', 'p', 'n', 'g']);
    } else {
        assert(tail[0] != '.' || tail[1] != 'p' || tail[2] != 'n' || tail[3] != 'g');
    }
    r
}

/// Builds the item list of a scanned root directory, and the label map of the letters
/// 'A'..'Z'. Entries that are not directories named by one letter, and files without
/// the "png" extension, are skipped.
pub fn load_dataset(entries: &Vec<DirEntry>) -> (r: (Vec<FileItem>, LabelMap))
    ensures
        r.1.alphabet@ == crate::labels::latin_seq(),
        r.1.wf(),
        r.0@ == scan_items(r.1.alphabet@, entries@),
{
    let label_map = LabelMap::latin();
    let ghost alpha = label_map.alphabet@;
    let mut items: Vec<FileItem> = Vec::new();
    let mut i: usize = 0;
    while i < entries.len()
        invariant
            0 <= i <= entries@.len(),
            label_map.wf(),
            alpha == label_map.alphabet@,
            items@ == scan_items(alpha, entries@.subrange(0, i as int)),
        decreases entries@.len() - i,
    {
        let entry = &entries[i];
        let ghost before = items@;
        assert(entries@.subrange(0, i + 1).drop_last() =~= entries@.subrange(0, i as int));
        if entry.is_dir {
            match label_map.get(entry.name.as_str()) {
                Some(label) => {
                    let mut j: usize = 0;
                    while j < entry.files.len()
                        invariant
                            0 <= j <= entry.files@.len(),
                            items@ == before + png_items(
                                entry.files@.subrange(0, j as int),
                                label,
                            ),
                        decreases entry.files@.len() - j,
                    {
                        let f = &entry.files[j];
                        assert(entry.files@.subrange(0, j + 1).drop_last() =~= entry.files@.subrange(
                            0,
                            j as int,
                        ));
                        if is_png_name(f.name.as_str()) {
                            items.push(FileItem { image_path: f.path.clone(), label });
                            assert(items@ =~= before + png_items(
                                entry.files@.subrange(0, j + 1),
                                label,
                            ));
                        }
                        j += 1;
                    }
                    assert(entry.files@.subrange(0, j as int) =~= entry.files@);
                },
                None => {
                    assert(before + entry_items(alpha, *entry) =~= before);
                },
            }
        } else {
            assert(before + entry_items(alpha, *entry) =~= before);
        }
        i += 1;
    }
    assert(entries@.subrange(0, i as int) =~= entries@);
    (items, label_map)
}

/// An indexable view of a list of items.
pub struct CustomDataset {
    pub items: Vec<FileItem>,
}

impl CustomDataset {
    pub fn new(items: Vec<FileItem>) -> (r: CustomDataset)
        ensures
            r.items@ == items@,
    {
        CustomDataset { items }
    }

    /// The item at `index`, or `None` past the end.
    pub fn get(&self, index: usize) -> (r: Option<FileItem>)
        ensures
            index < self.items@.len() ==> r == Some(self.items@[index as int]),
            index >= self.items@.len() ==> r.is_none(),
    {
        if index < self.items.len() {
            let it = &self.items[index];
            Some(FileItem { image_path: it.image_path.clone(), label: it.label })
        } else {
            None
        }
    }

    pub fn len(&self) -> (r: usize)
        ensures
            r == self.items@.len(),
    {
        self.items.len()
    }
}

} // verus!
