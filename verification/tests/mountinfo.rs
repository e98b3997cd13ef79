use git_grove::error::ExitClass;
use git_grove::fsx::mountinfo::{decode, MountTable};

#[test]
fn decodes_kernel_escapes_and_finds_the_longest_mount() {
    let table = MountTable::parse(
        b"1 0 8:1 / / rw - ext4 /dev/root rw\n2 1 8:1 /x /repo\\040space rw - ext4 /dev/root rw\n3 2 8:1 /x/y /repo\\040space/nested rw - ext4 /dev/root rw\n",
    )
    .unwrap();
    let path = b"/repo space/nested/file";
    assert_eq!(table.longest_enclosing(path).unwrap().id, 3);
    assert_eq!(table.entries[1].mountpoint, b"/repo space");
}

#[test]
fn component_boundaries_prevent_prefix_matches() {
    let table = MountTable::parse(
        b"1 0 8:1 / / rw - ext4 /dev/root rw\n2 1 8:1 / /repo-other rw - ext4 /dev/root rw\n",
    )
    .unwrap();
    assert_eq!(table.longest_enclosing(b"/repo/file").unwrap().id, 1);
}

#[test]
fn detects_nested_mounts_and_refuses_malformed_input() {
    let table = MountTable::parse(
        b"1 0 8:1 / / rw - ext4 /dev/root rw\n2 1 8:1 / /repo/nested rw - ext4 /dev/root rw\n",
    )
    .unwrap();
    assert_eq!(table.at_or_below(b"/repo").len(), 1);
    assert!(MountTable::parse(b"not mountinfo\n").is_err());
    assert!(MountTable::parse(b"1 0 8:1 / /bad\\999 rw - ext4 x rw\n").is_err());
}

#[test]
fn escaping_a_path_is_undone() {
    let path = b"/a b\tc\nd\\e\\040";
    let mut written = Vec::new();
    for byte in path {
        match byte {
            b' ' => written.extend(b"\\040"),
            b'\t' => written.extend(b"\\011"),
            b'\n' => written.extend(b"\\012"),
            b'\\' => written.extend(b"\\134"),
            other => written.push(*other),
        }
    }
    let line = [b"1 0 8:1 / ".to_vec(), written, b" rw - ext4 x rw\n".to_vec()].concat();
    assert_eq!(MountTable::parse(&line).unwrap().entries[0].mountpoint, path);
    assert_eq!(decode(b"a\\040\\134").unwrap(), b"a \\");
    assert_eq!(decode(b"a\\04").unwrap_err().class, ExitClass::Usage);
    assert_eq!(decode(b"a\\041").unwrap_err().class, ExitClass::Usage);
    for field in ["/a\\04", "/a\\", "/a\\041", "/a\\\\"] {
        let line = format!("1 0 8:1 / {field} rw - ext4 x rw\n");
        assert!(MountTable::parse(line.as_bytes()).is_err(), "{field}");
    }
}
