use ferrogate::machineid::{
    collect_facts, disk_serial, fingerprint, is_placeholder, linux_facts, macos_facts, prop,
    read_trim, val, windows_facts, BlockDevice, MachineFacts, MachineIdError,
};
use sha2::{Digest, Sha384};

fn facts(a: &str, b: &str, c: &str) -> MachineFacts {
    MachineFacts {
        board_serial: a.to_string(),
        platform_uuid: b.to_string(),
        disk_serial: c.to_string(),
    }
}

#[test]
fn fingerprint_is_stable_and_normalised() {
    let lower = facts("wt3qf2j3yl", " 38d33b14 ", "0ba02061");
    let upper = facts("WT3QF2J3YL", "38D33B14", "0BA02061");
    assert_eq!(lower.fingerprint(), upper.fingerprint());
}

#[test]
fn distinct_hardware_distinct_fingerprint() {
    assert_ne!(
        facts("A", "B", "C").fingerprint(),
        facts("A", "B", "D").fingerprint()
    );
}

#[test]
fn component_boundaries_are_unambiguous() {
    assert_ne!(
        facts("AB", "C", "D").fingerprint(),
        facts("A", "BC", "D").fingerprint()
    );
}

#[test]
fn hex_is_96_chars() {
    assert_eq!(facts("A", "B", "C").fingerprint().to_hex().len(), 96);
}

#[test]
fn completeness_rejects_blank_fields() {
    assert!(!facts("A", "", "C").is_complete());
    assert!(facts("A", "B", "C").is_complete());
}

#[test]
fn a_fingerprint_is_the_digest_of_the_separated_identifiers() {
    let expected = Sha384::digest(b"AB\x1fC\x1fD");
    let f = facts(" ab", "c\n", "D").fingerprint();
    assert_eq!(f.as_bytes().to_vec(), expected.to_vec());
    assert_eq!(f.to_hex(), hex::encode(expected));
}

#[test]
fn incomplete_facts_are_refused_and_failures_handed_on() {
    match collect_facts(Ok(facts("  ", "B", "C"))) {
        Err(MachineIdError::Unavailable(m)) => {
            assert_eq!(m, "one or more hardware identifiers were empty")
        }
        _ => panic!("expected the facts to be refused"),
    }
    assert!(matches!(
        fingerprint(Err(MachineIdError::Unsupported)),
        Err(MachineIdError::Unsupported)
    ));
    assert!(matches!(
        collect_facts(Err(MachineIdError::Query("x".into()))),
        Err(MachineIdError::Query(_))
    ));
    // The disk may be missing.
    let f = fingerprint(Ok(facts("a", "b", ""))).unwrap();
    assert_eq!(f, facts("A", "B", "").fingerprint());
}

#[test]
fn properties_are_read_from_quoted_lines() {
    let out = "+-o Root\n    \"IOPlatformUUID\" = \"U-1\"\n  \"IOPlatformSerialNumber\" = \"S1\"\n";
    assert_eq!(prop(out, "IOPlatformUUID"), Some("U-1".to_string()));
    assert_eq!(prop(out, "Missing"), None);
    let nvme = "  \"Serial Number\" = \"D9\"\n";
    let f = macos_facts(out, nvme).unwrap();
    assert_eq!(f.board_serial, "S1");
    assert_eq!(f.platform_uuid, "U-1");
    assert_eq!(f.disk_serial, "D9");
    match macos_facts(out, "") {
        Err(MachineIdError::Unavailable(m)) => assert_eq!(m, "NVMe Serial Number"),
        _ => panic!("expected a missing disk"),
    }
}

#[test]
fn fillers_are_no_identifiers() {
    assert!(is_placeholder(" to be filled by o.e.m. "));
    assert!(is_placeholder(""));
    assert!(is_placeholder("0"));
    assert!(!is_placeholder("REAL-1"));
    assert_eq!(val("board=none\nuuid= U \n", "board"), None);
    assert_eq!(val("board=none\nuuid= U \n", "uuid"), Some("U".to_string()));
    let f = windows_facts("board=Default string\nproduct=P1\nuuid=U1\ndisk=D1\n").unwrap();
    assert_eq!(f.board_serial, "P1");
    assert_eq!(f.platform_uuid, "U1");
    assert_eq!(f.disk_serial, "D1");
    assert!(windows_facts("board=B\n").is_err());
}

#[test]
fn linux_facts_fall_back_to_the_product_serial() {
    let f = linux_facts(
        Some(" \n".into()),
        Some(" P7\n".into()),
        Some("UU\n".into()),
        None,
    )
    .unwrap();
    assert_eq!(f.board_serial, "P7");
    assert_eq!(f.platform_uuid, "UU");
    assert_eq!(f.disk_serial, "");
    assert!(linux_facts(None, None, Some("U".into()), None).is_err());
    assert!(linux_facts(Some("B".into()), None, None, None).is_err());
    assert_eq!(read_trim(Some("  x ".into())), Some("x".to_string()));
    assert_eq!(read_trim(Some("  ".into())), None);
    assert_eq!(read_trim(None), None);
}

fn device(name: &str, removable: &str, serial: Option<&str>, ctrl: Option<&str>) -> BlockDevice {
    BlockDevice {
        name: name.to_string(),
        removable: Some(removable.to_string()),
        serial: serial.map(|s| s.to_string()),
        controller_serial: ctrl.map(|s| s.to_string()),
    }
}

#[test]
fn the_first_fixed_disk_by_name_gives_its_serial() {
    let devices = vec![
        device("sdb", "0\n", Some("B"), None),
        device("loop0", "0\n", Some("L"), None),
        device("sda", "1\n", Some("USB"), None),
        device("nvme0n1", "0\n", None, Some(" N \n")),
    ];
    assert_eq!(disk_serial(&devices), Some("N".to_string()));
    assert_eq!(disk_serial(&vec![device("ram0", "0", Some("x"), None)]), None);
}
