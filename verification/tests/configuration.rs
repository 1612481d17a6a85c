use rfmon::config::Config;
use rfmon::config::Postgres;
use rfmon::config::Sdr;
use rfmon::sql_tools::column_allowed;
use rfmon::sql_tools::device_sync_plan;

fn sample_config() -> Config {
    Config {
        id: None,
        name: "sensor-1".to_string(),
        geohash: "9r10g4ck1ft".to_string(),
        postgres: Postgres { connection_url: "postgres://localhost/rf".to_string() },
        sdr: Sdr {
            center_frequency: 100_000_000,
            sample_rate: 1_000_000,
            gain: 20_000,
            frequencies: vec![99_500_000, 100_500_000],
            fft_size: 1_024,
        },
    }
}

#[test]
fn valid_configuration_passes() {
    assert!(sample_config().validate());
}

#[test]
fn zero_fft_size_is_malformed() {
    let mut c = sample_config();
    c.sdr.fft_size = 0;
    assert!(!c.validate());
}

#[test]
fn out_of_range_frequency_is_malformed() {
    let mut c = sample_config();
    c.sdr.frequencies.push(2_000_000_000_000);
    assert!(!c.validate());
}

#[test]
fn registration_needed_until_id_assigned() {
    let mut c = sample_config();
    assert!(c.needs_registration());
    c.assign_id(0x1234_5678_9abc_def0);
    assert!(!c.needs_registration());
    assert_eq!(c.id, Some(0x1234_5678_9abc_def0));
    assert_eq!(c.name, "sensor-1");
}

#[test]
fn sync_plan_flags_only_divergent_fields() {
    let name = "a".to_string();
    let geo = "g".to_string();
    let same = device_sync_plan(&name, &geo, &"a".to_string(), &"g".to_string());
    assert!(!same.update_name);
    assert!(!same.update_geohash);

    let diff_name = device_sync_plan(&name, &geo, &"b".to_string(), &"g".to_string());
    assert!(diff_name.update_name);
    assert!(!diff_name.update_geohash);

    let diff_both = device_sync_plan(&name, &geo, &"b".to_string(), &"h".to_string());
    assert!(diff_both.update_name);
    assert!(diff_both.update_geohash);
}

#[test]
fn only_name_and_geohash_columns_may_be_updated() {
    assert!(column_allowed(&"name".to_string()));
    assert!(column_allowed(&"geohash".to_string()));
    assert!(!column_allowed(&"rssi".to_string()));
    assert!(!column_allowed(&"name; drop table sensor_metadata".to_string()));
}
