use penumbra_wrapper::error::AppError;
use penumbra_wrapper::partitions::parse_pgpt_output;

#[test]
fn test_parse_pgpt_output() {
    let output = r#"
Antumbra ✦  Waiting for MTK device...
Antumbra ✦  Found MTK port: USB 0E8D:2000
Antumbra ✦  Partition Table:
Antumbra ✦  Name: preloader              Addr: 0x00000000        Size: 0x00400000 (4 MiB)
Antumbra ✦  Name: boot_para              Addr: 0x00008000        Size: 0x01A00000 (26 MiB)
Antumbra ✦  Name: boot_a                 Addr: 0x25100000        Size: 0x02000000 (32 MiB)
Antumbra ✦  Name: super                  Addr: 0x43800000        Size: 0x1FA120000 (7.9 GiB)
Antumbra ✦  Name: userdata               Addr: 0x250800000       Size: 0x39447FB000 (229.1 GiB)
"#;

    let partitions = parse_pgpt_output(output).unwrap();
    assert_eq!(partitions.len(), 5);
    assert_eq!(partitions[0].name, "preloader");
    assert_eq!(partitions[0].start, "0x00000000");
    assert_eq!(partitions[0].size, "0x00400000");
    assert_eq!(partitions[0].display_size.as_deref(), Some("4 MiB"));
    assert_eq!(partitions[1].name, "boot_para");
    assert_eq!(partitions[2].name, "boot_a");
    assert_eq!(partitions[3].name, "super");
    assert_eq!(partitions[3].size, "0x1FA120000");
    assert_eq!(partitions[3].display_size.as_deref(), Some("7.9 GiB"));
    assert_eq!(partitions[4].name, "userdata");
}

#[test]
fn pgpt_without_partitions_is_a_parse_error() {
    match parse_pgpt_output("Antumbra ✦  Waiting for MTK device...\n") {
        Err(AppError::Parse(m)) => assert_eq!(m, "No partitions found in output"),
        other => panic!("unexpected {:?}", other),
    }
}

#[test]
fn pgpt_row_without_address_value_is_skipped() {
    let out = "Name: a Addr:\nName: b Addr: 0x10 Size: 0x20\n";
    let parts = parse_pgpt_output(out).unwrap();
    assert_eq!(parts.len(), 1);
    assert_eq!(parts[0].name, "b");
    assert_eq!(parts[0].size, "0x20");
    assert_eq!(parts[0].display_size, None);
}

#[test]
fn pgpt_display_size_in_several_words() {
    let out = "Name: x Addr: 0x0 Size: 0x1 (about 1 KiB)";
    let parts = parse_pgpt_output(out).unwrap();
    assert_eq!(parts[0].display_size.as_deref(), Some("about 1 KiB"));
}
