use kirby::s3::{destination_key, S3EventType};

#[test]
fn test_destination_key() {
    let key = "fastly_json/2025/04/01/2025-04-01T04:00:00.000-W_DzA6b6s9QaCDzkOgDj.log.gz";
    let target_directory = "incremental";
    let expected = "incremental/2025/04/01/2025-04-01T04:00:00.000-W_DzA6b6s9QaCDzkOgDj.json.gz";
    assert_eq!(destination_key(key, target_directory), Some(expected.to_string()));

    let key = "fastly_json/2017-06-05T05:00:00.000-xpHgT4KL5P-M0PMAAAAA.log.gz";
    let expected = "incremental/2017/06/05/2017-06-05T05:00:00.000-xpHgT4KL5P-M0PMAAAAA.json.gz";
    assert_eq!(destination_key(key, target_directory), Some(expected.to_string()));

    let key = "fastly_json/2025/2025-04-01T04:00:00.000-W_DzA6b6s9QaCDzkOgDj.log.gz";
    assert_eq!(
        destination_key(key, target_directory),
        Some("incremental/2025/2025-04-01T04:00:00.000-W_DzA6b6s9QaCDzkOgDj.json.gz".to_string())
    );
}

#[test]
fn destination_key_short_name() {
    assert_eq!(destination_key("fastly_json/short.log.gz", "backfill"), None);
}

#[test]
fn event_names() {
    assert_eq!(S3EventType::from_name("ObjectCreated:Put"), S3EventType::ObjectCreatedPut);
    assert_eq!("ObjectRestore:Completed".parse::<S3EventType>(), Ok(S3EventType::ObjectRestoreCompleted));
    assert_eq!(S3EventType::from_name("Other:Thing"), S3EventType::Other("Other:Thing".to_string()));
    assert!(S3EventType::from_name("ObjectCreated:CompleteMultipartUpload").is_object_created());
    assert!(S3EventType::from_name("ObjectCreated:Copy").is_object_created());
    assert!(S3EventType::from_name("ObjectCreated:Post").is_object_created());
    assert!(!S3EventType::ObjectRestoreCompleted.is_object_created());
    assert!(!S3EventType::Other("x".to_string()).is_object_created());
}
