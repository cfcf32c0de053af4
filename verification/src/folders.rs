//! The settings' editable folder lists (PC game folders, ROM roots):
//! changing, removing and adding folders, primary first, and the free
//! space shown under each.

use vstd::prelude::*;
use crate::disk_space::{format_size, format_size_spec};
use crate::text::{chars_of, string_of};

verus! {

broadcast use vstd::string::group_string_axioms;

/// A folder list, primary first.
pub struct FolderList {
    pub folders: Vec<String>,
}

/// The views of a list of folders.
pub open spec fn folders_view(s: Seq<String>) -> Seq<Seq<char>> {
    s.map_values(|f: String| f@)
}

impl FolderList {
    /// The list a settings page opens with.
    pub fn new(initial: Vec<String>) -> (l: Self)
        ensures
            l.folders@ == initial@,
    {
        FolderList { folders: initial }
    }

    /// The folders as they stand, primary first.
    pub fn get(&self) -> (r: Vec<String>)
        ensures
            folders_view(r@) == folders_view(self.folders@),
    {
        let mut r: Vec<String> = Vec::new();
        let mut i: usize = 0;
        while i < self.folders.len()
            invariant
                i <= self.folders.len(),
                folders_view(r@) == folders_view(self.folders@).take(i as int),
            decreases self.folders.len() - i,
        {
            let ghost before = folders_view(r@);
            r.push(self.folders[i].clone());
            assert(folders_view(r@) =~= before.push(self.folders@[i as int]@));
            assert(folders_view(self.folders@).take(i + 1) =~= folders_view(self.folders@).take(
                i as int,
            ).push(self.folders@[i as int]@));
            i = i + 1;
        }
        assert(folders_view(self.folders@).take(self.folders.len() as int) =~= folders_view(
            self.folders@,
        ));
        r
    }

    /// A folder row's change button picked `path`: the folder at `index`
    /// becomes it (a row past the end changes nothing).
    pub fn change(&mut self, index: usize, path: String)
        ensures
            final(self).folders@ == if index < old(self).folders.len() {
                old(self).folders@.update(index as int, path)
            } else {
                old(self).folders@
            },
    {
        if index < self.folders.len() {
            self.folders.set(index, path);
        }
    }

    /// A folder row's remove button: the folder at `index` leaves the
    /// list (a row past the end removes nothing).
    pub fn remove(&mut self, index: usize)
        ensures
            final(self).folders@ == if index < old(self).folders.len() {
                old(self).folders@.remove(index as int)
            } else {
                old(self).folders@
            },
    {
        if index < self.folders.len() {
            self.folders.remove(index);
        }
    }

    /// The add row picked `path`: it joins the end of the list.
    pub fn add(&mut self, path: String)
        ensures
            final(self).folders@ == old(self).folders@.push(path),
    {
        self.folders.push(path);
    }
}

/// A folder row's subtitle: `<size> free` when the free space of its
/// file system is known, else none.
pub fn free_space_subtitle(available: Option<u64>) -> (r: Option<String>)
    ensures
        match available {
            Some(bytes) => r matches Some(s) && s@ == format_size_spec(bytes as nat) + " free"@,
            None => r is None,
        },
{
    match available {
        Some(bytes) => {
            let size = format_size(bytes);
            let mut v = chars_of(size.as_str());
            let tail = chars_of(" free");
            let ghost start = v@;
            let mut k: usize = 0;
            while k < tail.len()
                invariant
                    k <= tail.len(),
                    v@ == start + tail@.take(k as int),
                decreases tail.len() - k,
            {
                v.push(tail[k]);
                k = k + 1;
                assert(v@ =~= start + tail@.take(k as int));
            }
            assert(tail@.take(tail.len() as int) =~= tail@);
            Some(string_of(&v))
        },
        None => None,
    }
}

/// Adding a folder and removing it again leaves the list as it was.
pub proof fn law_remove_undoes_add(folders: Seq<String>, path: String)
    ensures
        folders.push(path).remove(folders.len() as int) == folders,
{
    assert(folders.push(path).remove(folders.len() as int) =~= folders);
}

} // verus!
