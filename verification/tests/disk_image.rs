use std::path::PathBuf;

use initium::disk_image::{
    DiskImageBuilder, FileDataSource, BOOTLOADER_FILE_NAME, KERNEL_FILE_NAME, RAMDISK_FILE_NAME,
};

fn files(builder: &DiskImageBuilder) -> Vec<(String, String)> {
    let mut list = Vec::new();
    for i in 0..builder.len() {
        let (name, source) = builder.file(i);
        let from = match source {
            FileDataSource::File(path) => format!("file {}", path.display()),
            FileDataSource::Data(data) => format!("data {:?}", data),
        };
        list.push((name.clone(), from));
    }
    list.sort();
    list
}

#[test]
fn files_are_kept_by_name() {
    assert_eq!(DiskImageBuilder::empty().len(), 0);
    let mut builder = DiskImageBuilder::new(PathBuf::from("/kernel"));
    assert_eq!(files(&builder), vec![(KERNEL_FILE_NAME.to_string(), "file /kernel".to_string())]);
    builder
        .set_ramdisk(PathBuf::from("/ramdisk"))
        .set_file_contents("notes".to_string(), vec![1, 2])
        .set_file("boot.cfg".to_string(), PathBuf::from("/config"))
        .set_kernel(PathBuf::from("/other"));
    builder.set_file_contents("notes".to_string(), vec![3]);
    assert_eq!(
        files(&builder),
        vec![
            ("boot.cfg".to_string(), "file /config".to_string()),
            (KERNEL_FILE_NAME.to_string(), "file /other".to_string()),
            ("notes".to_string(), "data [3]".to_string()),
            (RAMDISK_FILE_NAME.to_string(), "file /ramdisk".to_string()),
        ]
    );
    assert!(!builder.overwrites_internal_file());
    builder.set_file(BOOTLOADER_FILE_NAME.to_string(), PathBuf::from("/mine"));
    assert!(builder.overwrites_internal_file());
    assert_eq!(builder.len(), 5);
}

#[test]
fn a_uefi_image_holds_the_kernel_and_the_ramdisk() {
    let mut boot = initium::uefi_boot::UefiBoot::new(PathBuf::from("/kernel"));
    assert_eq!(files(boot.image_builder()), vec![(KERNEL_FILE_NAME.to_string(), "file /kernel".to_string())]);
    boot.set_ramdisk(PathBuf::from("/first")).set_ramdisk(PathBuf::from("/ramdisk"));
    assert_eq!(
        files(boot.image_builder()),
        vec![
            (KERNEL_FILE_NAME.to_string(), "file /kernel".to_string()),
            (RAMDISK_FILE_NAME.to_string(), "file /ramdisk".to_string()),
        ]
    );
}
