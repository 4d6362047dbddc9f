use file_gateway::config::{resolve_config, StorageConfig};
use file_gateway::error::FileError;
use file_gateway::gateway::{
    file_name_of_key, get_all_files, get_file, require_file_name, require_path_param, upload_file,
    UploadField,
};
use file_gateway::store::StoreModel;

fn named_field(name: &str, data: &[u8]) -> UploadField {
    UploadField { file_name: Some(name.to_string()), data: data.to_vec() }
}

fn unnamed_field(data: &[u8]) -> UploadField {
    UploadField { file_name: None, data: data.to_vec() }
}

#[test]
fn upload_reports_names_in_field_order() {
    let mut store = StoreModel::new();
    let fields = vec![
        named_field("a.txt", b"one"),
        named_field("b.txt", b"two"),
        named_field("c.txt", b"three"),
    ];
    let uploaded = upload_file(&mut store, &fields).unwrap();
    assert_eq!(uploaded, vec!["a.txt".to_string(), "b.txt".to_string(), "c.txt".to_string()]);
}

#[test]
fn upload_of_no_fields_reports_nothing() {
    let mut store = StoreModel::new();
    let fields: Vec<UploadField> = Vec::new();
    let uploaded = upload_file(&mut store, &fields).unwrap();
    assert!(uploaded.is_empty());
}

#[test]
fn upload_with_unnamed_field_fails_with_input_error() {
    let mut store = StoreModel::new();
    let fields = vec![
        named_field("a.txt", b"abc"),
        unnamed_field(b"orphan"),
        named_field("c.txt", b"later"),
    ];
    let err = upload_file(&mut store, &fields).unwrap_err();
    assert!(matches!(err, FileError::Input(_)));
    assert!(err.is_input());
    assert_eq!(err.message(), "No file name provided");
}

#[test]
fn failed_upload_keeps_earlier_writes_and_skips_later_ones() {
    let mut store = StoreModel::new();
    let fields = vec![
        named_field("a.txt", b"abc"),
        unnamed_field(b"orphan"),
        named_field("c.txt", b"later"),
    ];
    assert!(upload_file(&mut store, &fields).is_err());
    let kept = get_file(&store, &Some("a.txt".to_string())).unwrap();
    assert_eq!(kept, b"abc".to_vec());
    let skipped = get_file(&store, &Some("c.txt".to_string()));
    assert!(matches!(skipped, Err(FileError::Storage(_))));
}

#[test]
fn download_of_never_uploaded_name_is_not_found() {
    let store = StoreModel::new();
    let err = get_file(&store, &Some("ghost.txt".to_string())).unwrap_err();
    assert!(err.is_storage());
    assert_eq!(err.message(), "file not found");
}

#[test]
fn download_returns_exactly_the_uploaded_bytes() {
    let mut store = StoreModel::new();
    let fields = vec![named_field("blob.bin", &[0u8, 1, 2, 254, 255])];
    upload_file(&mut store, &fields).unwrap();
    let body = get_file(&store, &Some("blob.bin".to_string())).unwrap();
    assert_eq!(body, vec![0u8, 1, 2, 254, 255]);
}

#[test]
fn second_upload_of_same_name_overwrites() {
    let mut store = StoreModel::new();
    upload_file(&mut store, &vec![named_field("x", &[1, 2, 3])]).unwrap();
    upload_file(&mut store, &vec![named_field("x", &[9])]).unwrap();
    let body = get_file(&store, &Some("x".to_string())).unwrap();
    assert_eq!(body, vec![9u8]);
    assert_eq!(get_all_files(&store).len(), 1);
}

#[test]
fn listing_reports_each_name_with_its_size() {
    let mut store = StoreModel::new();
    upload_file(&mut store, &vec![named_field("a.txt", b"abc"), named_field("b.txt", b"fghij")])
        .unwrap();
    let listed = get_all_files(&store);
    assert_eq!(listed.len(), 2);
    let pairs: Vec<(String, usize)> = listed.iter().map(|f| (f.name.clone(), f.size)).collect();
    assert!(pairs.contains(&("a.txt".to_string(), 3)));
    assert!(pairs.contains(&("b.txt".to_string(), 5)));
}

#[test]
fn listing_of_empty_store_is_empty() {
    let store = StoreModel::new();
    assert!(get_all_files(&store).is_empty());
}

#[test]
fn listing_uses_final_path_segment_of_key() {
    let mut store = StoreModel::new();
    upload_file(&mut store, &vec![named_field("dir/sub/x.txt", b"1234")]).unwrap();
    let listed = get_all_files(&store);
    assert_eq!(listed.len(), 1);
    assert_eq!(listed[0].name, "x.txt");
    assert_eq!(listed[0].size, 4);
}

#[test]
fn file_name_of_key_takes_last_segment() {
    assert_eq!(file_name_of_key(&"dir/sub/x.txt".to_string()), "x.txt");
    assert_eq!(file_name_of_key(&"plain.txt".to_string()), "plain.txt");
}

#[test]
fn file_name_of_key_reports_unknown_when_nothing_follows() {
    assert_eq!(file_name_of_key(&"dir/".to_string()), "unknown");
    assert_eq!(file_name_of_key(&"".to_string()), "unknown");
}

#[test]
fn download_without_path_parameter_is_an_input_error() {
    let store = StoreModel::new();
    let err = get_file(&store, &None).unwrap_err();
    assert!(err.is_input());
    assert_eq!(err.message(), "File name required");
}

#[test]
fn require_file_name_accepts_and_rejects() {
    assert_eq!(require_file_name(&Some("f.txt".to_string())).unwrap(), "f.txt");
    let err = require_file_name(&None).unwrap_err();
    assert!(matches!(err, FileError::Input(_)));
    assert_eq!(err.message(), "No file name provided");
}

#[test]
fn require_path_param_accepts_and_rejects() {
    assert_eq!(require_path_param(&Some("f.txt".to_string())).unwrap(), "f.txt");
    let err = require_path_param(&None).unwrap_err();
    assert!(matches!(err, FileError::Input(_)));
    assert_eq!(err.message(), "File name required");
}

#[test]
fn configuration_falls_back_to_documented_defaults() {
    let resolved = resolve_config(None);
    assert_eq!(resolved.endpoint, "http://minio:9000");
    assert_eq!(resolved.bucket, "files");
    assert_eq!(resolved.region, "us-east-1");
    assert_eq!(resolved.access_key, "minioadmin");
    assert_eq!(resolved.secret_key, "minioadmin");
}

#[test]
fn configuration_resolution_is_stable_across_calls() {
    let first = resolve_config(None);
    let second = resolve_config(None);
    assert_eq!(first.endpoint, second.endpoint);
    assert_eq!(first.bucket, second.bucket);
    assert_eq!(first.region, second.region);
    assert_eq!(first.access_key, second.access_key);
    assert_eq!(first.secret_key, second.secret_key);
}

#[test]
fn configuration_keeps_decoded_settings() {
    let decoded = StorageConfig {
        endpoint: "http://storage.internal:9000".to_string(),
        bucket: "uploads".to_string(),
        region: "eu-west-1".to_string(),
        access_key: "user".to_string(),
        secret_key: "pass".to_string(),
    };
    let resolved = resolve_config(Some(decoded));
    assert_eq!(resolved.endpoint, "http://storage.internal:9000");
    assert_eq!(resolved.bucket, "uploads");
    assert_eq!(resolved.region, "eu-west-1");
    assert_eq!(resolved.access_key, "user");
    assert_eq!(resolved.secret_key, "pass");
}
