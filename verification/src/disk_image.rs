use vstd::prelude::*;
use std::path::PathBuf;

verus! {

/// The name of the kernel's file on the disk image.
pub const KERNEL_FILE_NAME: &'static str = "kernel-x86_64";

/// The name of the boot loader's file on the disk image.
pub const BOOTLOADER_FILE_NAME: &'static str = "efi/boot/bootx64.efi";

/// The name of the ramdisk's file on the disk image.
pub const RAMDISK_FILE_NAME: &'static str = "ramdisk";

/// `std::path::PathBuf`: the path of a file, which is carried and not looked
/// into.
#[verifier::external_type_specification]
#[verifier::external_body]
pub struct ExPathBuf(PathBuf);

/// Where the contents of a file of the disk image come from.
pub enum FileDataSource {
    /// From the file at a path.
    File(PathBuf),
    /// From bytes in memory.
    Data(Vec<u8>),
}

/// The files that are to be put on a disk image, each under its name.
pub struct DiskImageBuilder {
    files: Vec<(String, FileDataSource)>,
}

/// Whether `name` is the name of one of `files`.
pub open spec fn has_name(files: Seq<(String, FileDataSource)>, name: Seq<char>) -> bool {
    exists|i: int| 0 <= i < files.len() && (#[trigger] files[i]).0@ == name
}

/// The index of the file of the name `name`.
pub open spec fn index_of(files: Seq<(String, FileDataSource)>, name: Seq<char>) -> int {
    choose|i: int| 0 <= i < files.len() && (#[trigger] files[i]).0@ == name
}

impl DiskImageBuilder {
    /// The files, each under its name.
    pub closed spec fn contents(&self) -> Map<Seq<char>, FileDataSource> {
        Map::new(
            |name: Seq<char>| has_name(self.files@, name),
            |name: Seq<char>| self.files@[index_of(self.files@, name)].1,
        )
    }

    /// The invariant of the type: no two files have the same name.
    pub closed spec fn wf(&self) -> bool {
        forall|i: int, j: int|
            0 <= i < j < self.files@.len() ==> (#[trigger] self.files@[i]).0@
                != (#[trigger] self.files@[j]).0@
    }

    /// A disk image that holds the kernel at `kernel`.
    pub fn new(kernel: PathBuf) -> (r: Self)
        ensures
            r.wf(),
            r.contents() == Map::<Seq<char>, FileDataSource>::empty().insert(
                KERNEL_FILE_NAME@,
                FileDataSource::File(kernel),
            ),
    {
        let mut obj = Self::empty();
        let _ = obj.set_kernel(kernel);
        obj
    }

    /// A disk image without files.
    pub fn empty() -> (r: Self)
        ensures
            r.wf(),
            r.contents() == Map::<Seq<char>, FileDataSource>::empty(),
            r.count() == 0,
    {
        let r = DiskImageBuilder { files: Vec::new() };
        assert(r.contents() =~= Map::<Seq<char>, FileDataSource>::empty());
        r
    }

    /// Puts the kernel at `path` on the image, in place of any other.
    pub fn set_kernel(&mut self, path: PathBuf) -> (r: &mut Self)
        requires
            old(self).wf(),
        ensures
            r.wf(),
            r.contents() == old(self).contents().insert(
                KERNEL_FILE_NAME@,
                FileDataSource::File(path),
            ),
            *final(self) == *final(r),
    {
        self.set_file_source(KERNEL_FILE_NAME.to_owned(), FileDataSource::File(path));
        self
    }

    /// Puts the ramdisk at `path` on the image, in place of any other.
    pub fn set_ramdisk(&mut self, path: PathBuf) -> (r: &mut Self)
        requires
            old(self).wf(),
        ensures
            r.wf(),
            r.contents() == old(self).contents().insert(RAMDISK_FILE_NAME@, FileDataSource::File(path)),
            *final(self) == *final(r),
    {
        self.set_file_source(RAMDISK_FILE_NAME.to_owned(), FileDataSource::File(path));
        self
    }

    /// Puts a file with the contents `data` on the image under the name
    /// `destination`, in place of any other of that name.
    pub fn set_file_contents(&mut self, destination: String, data: Vec<u8>) -> (r: &mut Self)
        requires
            old(self).wf(),
        ensures
            r.wf(),
            r.contents() == old(self).contents().insert(destination@, FileDataSource::Data(data)),
            *final(self) == *final(r),
    {
        self.set_file_source(destination, FileDataSource::Data(data));
        self
    }

    /// Puts the file at `file_path` on the image under the name `destination`,
    /// in place of any other of that name.
    pub fn set_file(&mut self, destination: String, file_path: PathBuf) -> (r: &mut Self)
        requires
            old(self).wf(),
        ensures
            r.wf(),
            r.contents() == old(self).contents().insert(destination@, FileDataSource::File(file_path)),
            *final(self) == *final(r),
    {
        self.set_file_source(destination, FileDataSource::File(file_path));
        self
    }

    /// Where the file of the name `name` is, if there is one.
    fn position(&self, name: &String) -> (r: Option<usize>)
        requires
            self.wf(),
        ensures
            r.is_some() == has_name(self.files@, name@),
            r matches Some(i) ==> i < self.files@.len() && self.files@[i as int].0@ == name@ && i
                == index_of(self.files@, name@),
    {
        let mut i: usize = 0;
        while i < self.files.len()
            invariant
                self.wf(),
                i <= self.files@.len(),
                forall|j: int| 0 <= j < i ==> (#[trigger] self.files@[j]).0@ != name@,
            decreases self.files@.len() - i,
        {
            if self.files[i].0 == *name {
                let ghost chosen = index_of(self.files@, name@);
                assert(chosen == i) by {
                    if chosen < i {
                        assert(self.files@[chosen].0@ != name@);
                    } else if chosen > i {
                        assert(self.files@[i as int].0@ != self.files@[chosen].0@);
                    }
                }
                return Some(i);
            }
            i += 1;
        }
        None
    }

    /// Puts `source` on the image under the name `destination`.
    fn set_file_source(&mut self, destination: String, source: FileDataSource)
        requires
            old(self).wf(),
        ensures
            final(self).wf(),
            final(self).contents() == old(self).contents().insert(destination@, source),
    {
        match self.position(&destination) {
            Some(i) => {
                let ghost name = destination@;
                self.files[i] = (destination, source);
                assert forall|n: Seq<char>| has_name(self.files@, n) == has_name(old(self).files@, n) by {
                    if has_name(self.files@, n) {
                        let k = index_of(self.files@, n);
                        assert(old(self).files@[k].0@ == n);
                    }
                    if has_name(old(self).files@, n) {
                        let k = index_of(old(self).files@, n);
                        assert(self.files@[k].0@ == n);
                    }
                }
                assert forall|n: Seq<char>| has_name(self.files@, n) implies index_of(self.files@, n)
                    == index_of(old(self).files@, n) by {
                    let a = index_of(self.files@, n);
                    let b = index_of(old(self).files@, n);
                    assert(old(self).files@[a].0@ == n);
                    if a < b {
                        assert(old(self).files@[a].0@ != old(self).files@[b].0@);
                    } else if b < a {
                        assert(old(self).files@[b].0@ != old(self).files@[a].0@);
                    }
                }
                assert(self.contents() =~= old(self).contents().insert(name, source));
            },
            None => {
                let ghost name = destination@;
                self.files.push((destination, source));
                assert forall|n: Seq<char>| has_name(self.files@, n) == (has_name(
                    old(self).files@,
                    n,
                ) || n == name) by {
                    if has_name(self.files@, n) {
                        let k = index_of(self.files@, n);
                        if k < old(self).files@.len() {
                            assert(old(self).files@[k].0@ == n);
                        }
                    }
                    if has_name(old(self).files@, n) {
                        let k = index_of(old(self).files@, n);
                        assert(self.files@[k].0@ == n);
                    }
                    if n == name {
                        assert(self.files@[self.files@.len() - 1].0@ == n);
                    }
                }
                assert forall|n: Seq<char>| has_name(old(self).files@, n) implies index_of(
                    self.files@,
                    n,
                ) == index_of(old(self).files@, n) by {
                    let b = index_of(old(self).files@, n);
                    assert(self.files@[b].0@ == n);
                    let a = index_of(self.files@, n);
                    if a < b {
                        assert(self.files@[a].0@ != self.files@[b].0@);
                    } else if b < a {
                        assert(self.files@[b].0@ != self.files@[a].0@);
                    }
                }
                assert(index_of(self.files@, name) == self.files@.len() - 1) by {
                    let a = index_of(self.files@, name);
                    assert(self.files@[self.files@.len() - 1].0@ == name);
                    if a < self.files@.len() - 1 {
                        assert(old(self).files@[a].0@ == name);
                    }
                }
                assert(self.contents() =~= old(self).contents().insert(name, source));
            },
        }
    }

    /// Whether the image holds a file under the name that is kept for the
    /// boot loader, which a disk image cannot be made with.
    pub fn overwrites_internal_file(&self) -> (r: bool)
        requires
            self.wf(),
        ensures
            r == self.contents().contains_key(BOOTLOADER_FILE_NAME@),
    {
        let name = BOOTLOADER_FILE_NAME.to_owned();
        self.position(&name).is_some()
    }

    /// The number of files.
    pub fn len(&self) -> (r: usize)
        ensures
            r == self.count(),
    {
        self.files.len()
    }

    /// The number of files.
    pub closed spec fn count(&self) -> nat {
        self.files@.len()
    }

    /// The file with the index `index`: its name and where its contents come
    /// from.
    pub fn file(&self, index: usize) -> (r: (&String, &FileDataSource))
        requires
            index < self.count(),
        ensures
            self.contents().contains_key(r.0@),
            self.wf() ==> self.contents()[r.0@] == *r.1,
    {
        let entry = &self.files[index];
        proof {
            assert(has_name(self.files@, entry.0@));
            if self.wf() {
                let k = index_of(self.files@, entry.0@);
                if k < index {
                    assert(self.files@[k].0@ != self.files@[index as int].0@);
                } else if index < k {
                    assert(self.files@[index as int].0@ != self.files@[k].0@);
                }
            }
        }
        (&entry.0, &entry.1)
    }
}

} // verus!
