use penumbra_wrapper::scatter_yaml::hex_literal;
use penumbra_wrapper::scatter::{
    find_image_file, is_xml_content, ScatterFile, ScatterParser, ScatterPartition,
};

fn part(name: &str, file: Option<&str>, download: bool) -> ScatterPartition {
    ScatterPartition {
        index: "SYS0".to_string(),
        partition_name: name.to_string(),
        file_name: file.map(|f| f.to_string()),
        is_download: download,
        partition_type: "NORMAL_ROM".to_string(),
        linear_start_addr: "0x0".to_string(),
        physical_start_addr: "0x0".to_string(),
        partition_size: "0x80000".to_string(),
        region: "EMMC_USER".to_string(),
        storage: "HW_STORAGE_EMMC".to_string(),
        operation_type: "UPDATE".to_string(),
    }
}

#[test]
fn hex_sizes() {
    assert_eq!(ScatterFile::parse_hex("0x80000").unwrap(), 0x80000);
    assert_eq!(ScatterFile::parse_hex("0X1F").unwrap(), 0x1f);
    assert_eq!(ScatterFile::parse_hex("0x0x10").unwrap(), 0x10);
    assert_eq!(ScatterFile::parse_hex("ff").unwrap(), 255);
    assert_eq!(ScatterFile::parse_hex("0xFFFFFFFFFFFFFFFF").unwrap(), u64::MAX);
    assert!(ScatterFile::parse_hex("0x10000000000000000").is_err());
    assert!(ScatterFile::parse_hex("0x").is_err());
    assert!(ScatterFile::parse_hex("0xZZ").is_err());
}

#[test]
fn download_partitions_only() {
    let file = ScatterFile {
        platform: "MT6781".to_string(),
        project: "p".to_string(),
        storage_type: "EMMC".to_string(),
        partitions: vec![part("a", None, true), part("b", None, false), part("c", None, true)],
        file_path: "/x/scatter.txt".to_string(),
    };
    let names: Vec<&str> =
        file.get_download_partitions().iter().map(|p| p.partition_name.as_str()).collect();
    assert_eq!(names, vec!["a", "c"]);
}

#[test]
fn image_matching() {
    let files = vec![
        "readme.txt".to_string(),
        "images/BOOT.IMG".to_string(),
        "Preloader_x.bin".to_string(),
        "lk.bin".to_string(),
    ];
    assert_eq!(find_image_file(&part("boot", None, true), &files), Some(1));
    assert_eq!(find_image_file(&part("preloader", Some("preloader_x.BIN"), true), &files), Some(2));
    assert_eq!(find_image_file(&part("lk", Some("NONE"), true), &files), Some(3));
    assert_eq!(find_image_file(&part("super", None, true), &files), None);
}

#[test]
fn format_detection() {
    assert!(is_xml_content("  <?xml version=\"1.0\"?>"));
    assert!(!is_xml_content("- general: MTK_PLATFORM_CFG"));
    assert!(!is_xml_content("   "));
}

const XML: &str = r#"<?xml version="1.0" encoding="UTF-8"?>
<root>
  <general>
    <platform>MT6781</platform>
    <project>x670_h814</project>
  </general>
  <storage_type name="EMMC">
    <partition_index name="SYS0">
      <partition_name>preloader</partition_name>
      <file_name>preloader.bin</file_name>
      <is_download>true</is_download>
      <type>SV5_BL_BIN</type>
      <partition_size>0x80000</partition_size>
    </partition_index>
  </storage_type>
  <storage_type name="UFS">
    <partition_index name="SYS0">
      <partition_name>preloader_ufs</partition_name>
      <file_name>NONE</file_name>
      <is_download> TRUE </is_download>
      <region>UFS_LU2</region>
    </partition_index>
    <partition_index name="SYS1">
      <partition_name>boot</partition_name>
      <is_download>false</is_download>
    </partition_index>
  </storage_type>
</root>
"#;

#[test]
fn xml_scatter_keeps_the_ufs_layout() {
    let file = ScatterParser::parse(XML, "/fw/scatter.xml").unwrap();
    assert_eq!(file.platform, "MT6781");
    assert_eq!(file.project, "x670_h814");
    assert_eq!(file.storage_type, "UFS");
    assert_eq!(file.file_path, "/fw/scatter.xml");
    assert_eq!(file.partitions.len(), 2);
    assert_eq!(file.partitions[0].index, "SYS0");
    assert_eq!(file.partitions[0].partition_name, "preloader_ufs");
    assert_eq!(file.partitions[0].file_name, None);
    assert!(file.partitions[0].is_download);
    assert_eq!(file.partitions[0].region, "UFS_LU2");
    assert_eq!(file.partitions[1].partition_name, "boot");
    assert!(!file.partitions[1].is_download);
}

#[test]
fn xml_scatter_old_layout() {
    let xml = "<root><general><platform>MT6765</platform><storage>EMMC</storage></general>\
               <partition_index name=\"SYS3\"><partition_name>lk</partition_name>\
               <file_name>lk.img</file_name></partition_index></root>";
    let file = ScatterParser::parse(xml, "s.xml").unwrap();
    assert_eq!(file.storage_type, "EMMC");
    assert_eq!(file.partitions.len(), 1);
    assert_eq!(file.partitions[0].file_name.as_deref(), Some("lk.img"));
}

#[test]
fn xml_syntax_error_is_a_parse_error() {
    match ScatterParser::parse("<root><a></b></root>", "bad.xml") {
        Err(penumbra_wrapper::error::AppError::Parse(m)) => assert!(m.starts_with("XML parse error: ")),
        other => panic!("unexpected {:?}", other.map(|f| f.platform)),
    }
}

const YAML: &str = "- general: MTK_PLATFORM_CFG
  info:
    - config_version: V2.1.0
      platform: MT6781
      project: x670_h814
- storage_type: EMMC
  description:
    - general: MTK_PLATFORM_CFG
    - partition_index: SYS0
      partition_name: preloader
      file_name: preloader.bin
      is_download: true
      type: SV5_BL_BIN
      linear_start_addr: 0x0
      partition_size: 524288
    - partition_index: SYS1
      partition_name: pgpt
      file_name: NONE
      is_download: false
";

#[test]
fn yaml_scatter_sequence_form() {
    let file = ScatterParser::parse(YAML, "/fw/scatter.txt").unwrap();
    assert_eq!(file.platform, "MT6781");
    assert_eq!(file.project, "x670_h814");
    assert_eq!(file.storage_type, "EMMC");
    assert_eq!(file.partitions.len(), 2);
    assert_eq!(file.partitions[0].partition_name, "preloader");
    assert_eq!(file.partitions[0].linear_start_addr, "0x0");
    assert_eq!(file.partitions[0].partition_size, "0x80000");
    assert!(file.partitions[0].is_download);
    assert_eq!(file.partitions[1].file_name, None);
}

#[test]
fn yaml_scatter_document_stream() {
    let text = "general: MTK_PLATFORM_CFG\ninfo:\n  - config_version: V1\n    platform: MT6765\n---\nstorage_type: EMMC\ndescription:\n  - partition_index: SYS0\n    partition_name: boot\n";
    let file = ScatterParser::parse(text, "s.txt").unwrap();
    assert_eq!(file.platform, "MT6765");
    assert_eq!(file.partitions.len(), 1);
    assert_eq!(file.partitions[0].partition_name, "boot");
}

#[test]
fn yaml_without_any_loadable_document_is_an_error() {
    match ScatterParser::parse("key: [1, 2", "e.txt") {
        Err(penumbra_wrapper::error::AppError::Parse(m)) => assert_eq!(m, "Empty YAML file"),
        other => panic!("unexpected {:?}", other.map(|f| f.platform)),
    }
}

#[test]
fn hexadecimal_literals() {
    assert_eq!(hex_literal(0), "0x0");
    assert_eq!(hex_literal(524288), "0x80000");
    assert_eq!(hex_literal(u64::MAX), "0xffffffffffffffff");
}

#[test]
fn blank_yaml_reads_as_one_empty_document() {
    let file = ScatterParser::parse("", "e.txt").unwrap();
    assert!(file.partitions.is_empty());
    assert_eq!(file.storage_type, "");
}
