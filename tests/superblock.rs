use disks::superblock::{Error, FatType, Kind, Superblock};

const BUFFER: usize = 128 * 1024;

fn put(buf: &mut [u8], at: usize, bytes: &[u8]) {
    buf[at..at + bytes.len()].copy_from_slice(bytes);
}

fn uuid_bytes(text: &str) -> Vec<u8> {
    let hex: String = text.chars().filter(|c| *c != '-').collect();
    (0..16).map(|i| u8::from_str_radix(&hex[2 * i..2 * i + 2], 16).unwrap()).collect()
}

fn ext4_image() -> Vec<u8> {
    let mut b = vec![0u8; BUFFER];
    put(&mut b, 1080, &[0x53, 0xEF]);
    put(&mut b, 1024 + 0x68, &uuid_bytes("731af94c-9990-4eed-944d-5d230dbe8a0d"));
    put(&mut b, 1024 + 0x78, b"blsforme testing");
    b
}

fn fat_image(fat32: bool) -> Vec<u8> {
    let mut b = vec![0u8; BUFFER];
    put(&mut b, 0x1FE, &[0x55, 0xAA]);
    let base = if fat32 {
        put(&mut b, 36, &[0x10, 0, 0, 0]);
        64
    } else {
        put(&mut b, 22, &[0x20, 0]);
        36
    };
    put(&mut b, base + 3, &0xA1B2C3D4u32.to_le_bytes());
    put(&mut b, base + 7, b"TESTLABEL  ");
    b
}

#[test]
fn identifies_ext4() {
    let sb = Superblock::from_bytes(&ext4_image()).expect("ext4");
    assert_eq!(sb.kind(), Kind::Ext4);
    assert_eq!(sb.uuid().unwrap(), "731af94c-9990-4eed-944d-5d230dbe8a0d");
    assert_eq!(sb.label().unwrap(), "blsforme testing");
}

#[test]
fn identifies_btrfs_without_label() {
    let mut b = vec![0u8; BUFFER];
    put(&mut b, 65536 + 64, b"_BHRfS_M");
    put(&mut b, 65536 + 32, &uuid_bytes("829d6a03-96a5-4749-9ea2-dbb6e59368b2"));
    let sb = Superblock::from_bytes(&b).expect("btrfs");
    assert_eq!(sb.kind(), Kind::Btrfs);
    assert_eq!(sb.uuid().unwrap(), "829d6a03-96a5-4749-9ea2-dbb6e59368b2");
    assert_eq!(sb.label(), Err(Error::UnsupportedFeature));
}

#[test]
fn identifies_f2fs() {
    let mut b = vec![0u8; BUFFER];
    put(&mut b, 1024, &0xF2F52010u32.to_le_bytes());
    put(&mut b, 1024 + 108, &uuid_bytes("d2c85810-4e75-4274-bc7d-a78267af7443"));
    let label: Vec<u8> = "blsforme testing".encode_utf16().flat_map(|u| u.to_le_bytes()).collect();
    put(&mut b, 1024 + 124, &label);
    let sb = Superblock::from_bytes(&b).expect("f2fs");
    assert_eq!(sb.kind(), Kind::F2FS);
    assert_eq!(sb.uuid().unwrap(), "d2c85810-4e75-4274-bc7d-a78267af7443");
    assert_eq!(sb.label().unwrap(), "blsforme testing");
}

#[test]
fn f2fs_bad_utf16_label() {
    let mut b = vec![0u8; BUFFER];
    put(&mut b, 1024, &0xF2F52010u32.to_le_bytes());
    put(&mut b, 1024 + 124, &0xDC00u16.to_le_bytes());
    let sb = Superblock::from_bytes(&b).expect("f2fs");
    assert!(matches!(sb.label(), Err(Error::Unicode(_))));
}

#[test]
fn identifies_xfs() {
    let mut b = vec![0u8; BUFFER];
    put(&mut b, 0, b"XFSB");
    put(&mut b, 32, &uuid_bytes("45e8a3bf-8114-400f-95b0-380d0fb7d42d"));
    put(&mut b, 108, b"BLSFORME");
    let sb = Superblock::from_bytes(&b).expect("xfs");
    assert_eq!(sb.kind(), Kind::Xfs);
    assert_eq!(sb.uuid().unwrap(), "45e8a3bf-8114-400f-95b0-380d0fb7d42d");
    assert_eq!(sb.label().unwrap(), "BLSFORME");
}

#[test]
fn identifies_luks2_and_reads_json() {
    let mut b = vec![0u8; BUFFER];
    put(&mut b, 0, &[b'L', b'U', b'K', b'S', 0xba, 0xbe]);
    put(&mut b, 8, &16384u64.to_be_bytes());
    put(&mut b, 168, b"be373cae-2bd1-4ad5-953f-3463b2e53e59");
    let json = br#"{"config":{"json_size":"12288","keyslots_size":"16744448"},"keyslots":{"0":{"area":{"encryption":"aes-xts-plain64"}}}}"#;
    put(&mut b, 4096, json);
    let sb = Superblock::from_bytes(&b).expect("luks2");
    assert_eq!(sb.kind(), Kind::Luks2);
    assert_eq!(sb.uuid().unwrap(), "be373cae-2bd1-4ad5-953f-3463b2e53e59");
    assert_eq!(sb.label().unwrap(), "");
    if let Superblock::Luks2(header) = &sb {
        assert_eq!(header.hdr_size(), 16384);
        assert_eq!(header.config_json(&b).unwrap(), std::str::from_utf8(json).unwrap());
        assert!(header.config_json(&b[..8000]).is_err());
    } else {
        panic!("expected LUKS2");
    }
}

#[test]
fn identifies_secondary_luks2_magic() {
    let mut b = vec![0u8; BUFFER];
    put(&mut b, 0, &[b'S', b'K', b'U', b'L', 0xba, 0xbe]);
    assert_eq!(Superblock::from_bytes(&b).expect("luks2").kind(), Kind::Luks2);
}

#[test]
fn identifies_fat16_and_fat32() {
    for fat32 in [false, true] {
        let image = fat_image(fat32);
        let sb = Superblock::from_bytes(&image).expect("fat");
        assert_eq!(sb.kind(), Kind::Fat);
        assert_eq!(sb.uuid().unwrap(), "A1B2-C3D4");
        assert_eq!(sb.label().unwrap(), "TESTLABEL");
        if let Superblock::Fat(fat) = &sb {
            assert_eq!(fat.fat_type(), if fat32 { FatType::Fat32 } else { FatType::Fat16 });
        }
    }
}

#[test]
fn unknown_and_short_buffers() {
    assert!(matches!(Superblock::from_bytes(&vec![0u8; BUFFER]), Err(Error::UnknownSuperblock)));
    assert!(matches!(Superblock::from_bytes(&vec![0u8; 2048]), Err(Error::Io)));
}

#[test]
fn identification_ignores_bytes_outside_the_superblock() {
    let mut image = ext4_image();
    for i in (3000..BUFFER).step_by(7) {
        if !(65600..65608).contains(&i) && !(1024..1028).contains(&i) {
            image[i] = 0xA5;
        }
    }
    image[0] = 0x11;
    let sb = Superblock::from_bytes(&image).expect("ext4");
    assert_eq!(sb.kind(), Kind::Ext4);
    assert_eq!(sb.uuid().unwrap(), "731af94c-9990-4eed-944d-5d230dbe8a0d");
    assert_eq!(sb.label().unwrap(), "blsforme testing");
}

#[test]
fn kind_names() {
    assert_eq!(Kind::Ext4.name(), "ext4");
    assert_eq!(Kind::Luks2.name(), "luks2");
    assert_eq!(Kind::Fat.name(), "fat");
}
