use vstd::prelude::*;
use std::path::PathBuf;
use crate::disk_image::{DiskImageBuilder, FileDataSource, KERNEL_FILE_NAME, RAMDISK_FILE_NAME};

verus! {

/// What is put on a disk image that firmware of the UEFI kind starts from.
pub struct UefiBoot {
    image_builder: DiskImageBuilder,
}

impl UefiBoot {
    /// The invariant of the type: that of the files.
    pub closed spec fn wf(&self) -> bool {
        self.image_builder.wf()
    }

    /// The files of the image, each under its name.
    pub closed spec fn contents(&self) -> Map<Seq<char>, FileDataSource> {
        self.image_builder.contents()
    }

    /// An image that holds the kernel at `kernel_path` and nothing else.
    pub fn new(kernel_path: PathBuf) -> (r: Self)
        ensures
            r.wf(),
            r.contents() == Map::<Seq<char>, FileDataSource>::empty().insert(
                KERNEL_FILE_NAME@,
                FileDataSource::File(kernel_path),
            ),
    {
        Self { image_builder: DiskImageBuilder::new(kernel_path) }
    }

    /// Puts the ramdisk at `ramdisk_path` on the image, in place of any other.
    pub fn set_ramdisk(&mut self, ramdisk_path: PathBuf) -> (r: &mut Self)
        requires
            old(self).wf(),
        ensures
            r.wf(),
            r.contents() == old(self).contents().insert(
                RAMDISK_FILE_NAME@,
                FileDataSource::File(ramdisk_path),
            ),
            *final(self) == *final(r),
    {
        let _ = self.image_builder.set_ramdisk(ramdisk_path);
        self
    }

    /// The files that the image is built from.
    pub fn image_builder(&self) -> (r: &DiskImageBuilder)
        requires
            self.wf(),
        ensures
            r.wf(),
            r.contents() == self.contents(),
    {
        &self.image_builder
    }
}

} // verus!
