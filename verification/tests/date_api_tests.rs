use std::io::Write;

use areabook::api::{decompress_gzip, MissionaryApi};
use areabook::date::parse_date_millis;
use areabook::kic::{extract_pros_area_ids, KeyIndicator, KeyIndicatorsResponse};
use areabook::timeline::BatchError;

#[test]
fn parses_known_dates() {
    assert_eq!(parse_date_millis("1970-01-01"), Some(0));
    assert_eq!(parse_date_millis("2024-01-01"), Some(1_704_067_200_000));
    // Leap day of a leap year parses; the same day of a common year
    // does not.
    assert!(parse_date_millis("2024-02-29").is_some());
    assert_eq!(parse_date_millis("2023-02-29"), None);
    // A century year is a leap year only when divisible by 400.
    assert_eq!(parse_date_millis("1900-02-29"), None);
    assert!(parse_date_millis("2000-02-29").is_some());
}

#[test]
fn rejects_malformed_or_pre_epoch_dates() {
    assert_eq!(parse_date_millis(""), None);
    assert_eq!(parse_date_millis("2024-1-1"), None);
    assert_eq!(parse_date_millis("2024/01/01"), None);
    assert_eq!(parse_date_millis("abcd-ef-gh"), None);
    assert_eq!(parse_date_millis("2024-00-10"), None);
    assert_eq!(parse_date_millis("2024-13-10"), None);
    assert_eq!(parse_date_millis("2024-04-31"), None);
    assert_eq!(parse_date_millis("1969-12-31"), None);
    assert_eq!(parse_date_millis("2024-01-015"), None);
}

#[test]
fn date_conversion_matches_chrono() {
    for day in ["1999-12-31", "2016-02-29", "2031-07-19", "9999-12-31"] {
        let naive = chrono::NaiveDate::parse_from_str(day, "%Y-%m-%d").unwrap();
        let expected = naive.and_hms_opt(0, 0, 0).unwrap().and_utc().timestamp() as u64 * 1000;
        assert_eq!(parse_date_millis(day), Some(expected));
    }
}

#[test]
fn auth_header_is_url_safe_base64_without_padding() {
    let api = MissionaryApi::new("user".to_string(), "pass".to_string());
    assert_eq!(api.get_auth_header(), "Basic dXNlcjpwYXNz");
    // Credentials whose encoding needs the URL-safe alphabet and would
    // ordinarily be padded.
    let api = MissionaryApi::new("a".to_string(), "~?".to_string());
    assert_eq!(api.get_auth_header(), "Basic YTp-Pw");
}

#[test]
fn gzip_round_trip() {
    let payload = b"{\"prosAreaName\":\"Alpha\"}".to_vec();
    let mut encoder =
        flate2::write::GzEncoder::new(Vec::new(), flate2::Compression::default());
    encoder.write_all(&payload).unwrap();
    let compressed = encoder.finish().unwrap();
    let decompressed = decompress_gzip(&compressed).unwrap();
    assert_eq!(decompressed, payload);
}

#[test]
fn corrupt_gzip_is_reported() {
    let garbage = vec![0u8, 1, 2, 3, 4, 5];
    assert!(matches!(
        decompress_gzip(&garbage),
        Err(BatchError::CorruptGzip)
    ));
}

#[test]
fn extracts_area_ids_in_order() {
    let res = KeyIndicatorsResponse {
        area_key_indicators: vec![
            KeyIndicator { pros_area_id: 31 },
            KeyIndicator { pros_area_id: 7 },
            KeyIndicator { pros_area_id: 31 },
        ],
    };
    assert_eq!(extract_pros_area_ids(&res), vec![31, 7, 31]);
}
