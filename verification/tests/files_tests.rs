use rolling_drones::common::FileMetaData;
use rolling_drones::files::{parse_id, prepare_file, trim_into_file_name, FALLBACK_ID};

#[test]
fn node_ids_are_read_as_bytes() {
    assert_eq!(parse_id("12".to_string()), 12);
    assert_eq!(parse_id("+7".to_string()), 7);
    assert_eq!(parse_id("007".to_string()), 7);
    assert_eq!(parse_id("255".to_string()), 255);
}

#[test]
fn unreadable_ids_fall_back() {
    assert_eq!(FALLBACK_ID, 27);
    assert_eq!(parse_id("256".to_string()), 27);
    assert_eq!(parse_id("".to_string()), 27);
    assert_eq!(parse_id("+".to_string()), 27);
    assert_eq!(parse_id("-1".to_string()), 27);
    assert_eq!(parse_id(" 3".to_string()), 27);
    assert_eq!(parse_id("drone".to_string()), 27);
}

#[test]
fn file_names_are_what_follows_the_last_slash() {
    assert_eq!(trim_into_file_name(&"assets/media/cat.png".to_string()), "cat.png");
    assert_eq!(trim_into_file_name(&"cat.png".to_string()), "cat.png");
    assert_eq!(trim_into_file_name(&"dir/".to_string()), "");
    assert_eq!(trim_into_file_name(&"".to_string()), "");
    assert_eq!(trim_into_file_name(&"a/ü/née.txt".to_string()), "née.txt");
}

#[test]
fn received_files_are_decoded_into_their_folder() {
    let fmd = FileMetaData {
        title: "hello".to_string(),
        extension: "txt".to_string(),
        content: "aGVsbG8gd29ybGQ=".to_string(),
    };
    let f = prepare_file("downloads", &fmd).unwrap();
    assert_eq!(f.path, "downloads/hello.txt");
    assert_eq!(f.bytes, b"hello world".to_vec());
}

#[test]
fn undecodable_files_are_refused() {
    let fmd = FileMetaData {
        title: "x".to_string(),
        extension: "bin".to_string(),
        content: "not base64!".to_string(),
    };
    assert_eq!(prepare_file("d", &fmd).err(), Some("Failed to decode the file".to_string()));
}

#[test]
fn long_and_signed_ids_fall_back() {
    assert_eq!(parse_id("1000".to_string()), 27);
    assert_eq!(parse_id("99999999999999999999999".to_string()), 27);
    assert_eq!(parse_id("++1".to_string()), 27);
    assert_eq!(parse_id("1+".to_string()), 27);
    assert_eq!(parse_id("0".to_string()), 0);
}
