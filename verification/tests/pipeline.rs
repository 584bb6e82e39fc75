use oracle_etl::batching::Batcher;
use oracle_etl::config::{
    default_batch_size, default_channel_capacity, default_fetch_size, default_max_retries,
    default_partition_column, default_threads, default_writers, Config, ConfigError,
    KineticaConfig, OracleConfig, PipelineConfig,
};
use oracle_etl::sql::{check_template, contains_text, partition_predicate, partition_sql, replace_text, TemplateError};
use oracle_etl::writer::{decide_batch, insert_endpoint, insert_payload, BatchDecision, Delivery, WriterAction};

fn config_with(pipeline: PipelineConfig) -> Config {
    Config {
        oracle: OracleConfig {
            dsn: "db:1521/ORCL".to_string(),
            user: "scott".to_string(),
            password: "tiger".to_string(),
            partition_column: default_partition_column(),
            fetch_size: default_fetch_size(),
        },
        kinetica: KineticaConfig {
            url: "https://k:9191".to_string(),
            user: "admin".to_string(),
            password: "pw".to_string(),
            table: "big_table".to_string(),
        },
        pipeline,
    }
}

#[test]
fn defaults_match_documented_values() {
    assert_eq!(default_partition_column(), "ROWID");
    assert_eq!(default_fetch_size(), 10_000);
    assert_eq!(default_threads(), 8);
    assert_eq!(default_writers(), 4);
    assert_eq!(default_batch_size(), 5_000);
    assert_eq!(default_channel_capacity(), 64);
    assert_eq!(default_max_retries(), 5);
    let p = PipelineConfig::default();
    assert_eq!((p.threads, p.writers, p.batch_size, p.channel_capacity, p.max_retries), (8, 4, 5000, 64, 5));
}

#[test]
fn default_pipeline_validates() {
    assert_eq!(config_with(PipelineConfig::default()).validate(), Ok(()));
}

#[test]
fn each_zero_setting_is_refused_in_order() {
    let mut p = PipelineConfig::default();
    p.threads = 0;
    p.writers = 0;
    assert_eq!(config_with(p).validate(), Err(ConfigError::NoReaders));
    let mut p = PipelineConfig::default();
    p.writers = 0;
    assert_eq!(config_with(p).validate(), Err(ConfigError::NoWriters));
    let mut p = PipelineConfig::default();
    p.batch_size = 0;
    p.channel_capacity = 0;
    assert_eq!(config_with(p).validate(), Err(ConfigError::EmptyBatches));
    let mut p = PipelineConfig::default();
    p.channel_capacity = 0;
    assert_eq!(config_with(p).validate(), Err(ConfigError::NoChannelCapacity));
    assert_eq!(ConfigError::NoReaders.message(), "pipeline.threads must be >= 1");
    assert_eq!(ConfigError::NoWriters.message(), "pipeline.writers must be >= 1");
    assert_eq!(ConfigError::EmptyBatches.message(), "pipeline.batch_size must be >= 1");
    assert_eq!(ConfigError::NoChannelCapacity.message(), "pipeline.channel_capacity must be >= 1");
}

#[test]
fn template_needs_placeholder() {
    assert_eq!(check_template("SELECT * FROM t WHERE {partition_clause}"), Ok(()));
    assert_eq!(check_template("SELECT * FROM t"), Err(TemplateError::MissingPlaceholder));
    assert_eq!(check_template("{partition_clause"), Err(TemplateError::MissingPlaceholder));
    assert!(contains_text("abc", ""));
    assert!(!contains_text("", "a"));
}

#[test]
fn predicate_uses_last_bucket_and_reader_id() {
    assert_eq!(partition_predicate("ROWID", 8, 3), "ORA_HASH(ROWID, 7) = 3");
    assert_eq!(partition_predicate("ID", 1, 0), "ORA_HASH(ID, 0) = 0");
    assert_eq!(partition_predicate("ID", 0, 0), "ORA_HASH(ID, 0) = 0");
    assert_eq!(partition_predicate("ID", 120, 105), "ORA_HASH(ID, 119) = 105");
}

#[test]
fn sql_gets_every_placeholder_replaced() {
    let sql = partition_sql(
        "SELECT id FROM big_table WHERE {partition_clause} AND x = 1",
        "ROWID",
        4,
        2,
    );
    assert_eq!(sql, "SELECT id FROM big_table WHERE ORA_HASH(ROWID, 3) = 2 AND x = 1");
    let twice = partition_sql("{partition_clause} OR {partition_clause}", "ID", 2, 1);
    assert_eq!(twice, "ORA_HASH(ID, 1) = 1 OR ORA_HASH(ID, 1) = 1");
    assert_eq!(partition_sql("SELECT 1 FROM dual", "ID", 2, 1), "SELECT 1 FROM dual");
}

#[test]
fn replace_matches_std_replace() {
    for (s, p, r) in [("aaaa", "aa", "b"), ("abcabc", "bc", "XYZ"), ("", "x", "y"), ("xyx", "x", ""), ("héllo wörld", "ö", "o")] {
        assert_eq!(replace_text(s, p, r), s.replace(p, r));
    }
}

#[test]
fn batcher_hands_on_full_batches_then_remainder() {
    let mut b: Batcher<u32> = Batcher::new(3);
    let mut sent: Vec<Vec<u32>> = Vec::new();
    for row in 0..8u32 {
        if let Some(batch) = b.push(row) {
            sent.push(batch);
        }
    }
    assert_eq!(b.rows_read(), 8);
    if let Some(rest) = b.finish() {
        sent.push(rest);
    }
    assert_eq!(sent, vec![vec![0, 1, 2], vec![3, 4, 5], vec![6, 7]]);
}

#[test]
fn batcher_exact_multiple_has_no_remainder() {
    let mut b: Batcher<&str> = Batcher::new(2);
    assert_eq!(b.push("a"), None);
    assert_eq!(b.push("b"), Some(vec!["a", "b"]));
    assert_eq!(b.finish(), None);
}

#[test]
fn batcher_size_zero_sends_every_row() {
    let mut b: Batcher<u8> = Batcher::new(0);
    assert_eq!(b.push(7), Some(vec![7]));
    assert_eq!(b.push(9), Some(vec![9]));
    assert_eq!(b.finish(), None);
}

#[test]
fn endpoint_drops_trailing_slashes() {
    assert_eq!(insert_endpoint("https://k:9191"), "https://k:9191/insert/records/json");
    assert_eq!(insert_endpoint("https://k:9191///"), "https://k:9191/insert/records/json");
    assert_eq!(insert_endpoint(""), "/insert/records/json");
    assert_eq!(insert_endpoint("/"), "/insert/records/json");
}

#[test]
fn payload_is_compact_json_with_string_records() {
    let records = vec!["{\"ID\":1,\"NAME\":\"a\"}".to_string(), "{\"ID\":2}".to_string()];
    let body = insert_payload("big_table", &records).unwrap();
    assert_eq!(
        body,
        "{\"json_records\":[\"{\\\"ID\\\":1,\\\"NAME\\\":\\\"a\\\"}\",\"{\\\"ID\\\":2}\"],\"options\":{\"return_record_ids\":\"false\",\"update_on_existing_pk\":\"false\"},\"table_name\":\"big_table\"}"
    );
    let parsed: serde_json::Value = serde_json::from_str(&body).unwrap();
    assert_eq!(parsed["json_records"][1], "{\"ID\":2}");
    assert_eq!(parsed["table_name"], "big_table");
}

#[test]
fn payload_of_no_records() {
    let body = insert_payload("t\"q", &Vec::new()).unwrap();
    assert_eq!(
        body,
        "{\"json_records\":[],\"options\":{\"return_record_ids\":\"false\",\"update_on_existing_pk\":\"false\"},\"table_name\":\"t\\\"q\"}"
    );
}

#[test]
fn retries_back_off_and_give_up() {
    let mut d = Delivery::new(5);
    let mut waits = Vec::new();
    loop {
        match d.record_outcome(false) {
            WriterAction::RetryAfter { wait_ms } => waits.push(wait_ms),
            WriterAction::GiveUp { attempts } => {
                assert_eq!(attempts, 6);
                break;
            }
            WriterAction::Delivered { .. } => unreachable!(),
        }
    }
    assert_eq!(waits, vec![250, 500, 1000, 2000, 4000]);
}

#[test]
fn backoff_is_capped_at_eight_seconds() {
    let mut d = Delivery::new(10);
    let mut waits = Vec::new();
    for _ in 0..9 {
        if let WriterAction::RetryAfter { wait_ms } = d.record_outcome(false) {
            waits.push(wait_ms);
        }
    }
    assert_eq!(waits, vec![250, 500, 1000, 2000, 4000, 8000, 8000, 8000, 8000]);
    assert_eq!(d.record_outcome(true), WriterAction::Delivered { attempts: 10 });
}

#[test]
fn max_retries_counts_retries_after_the_first_attempt() {
    let mut d = Delivery::new(3);
    assert_eq!(d.record_outcome(false), WriterAction::RetryAfter { wait_ms: 250 });
    assert_eq!(d.record_outcome(false), WriterAction::RetryAfter { wait_ms: 500 });
    assert_eq!(d.record_outcome(false), WriterAction::RetryAfter { wait_ms: 1000 });
    assert_eq!(d.record_outcome(false), WriterAction::GiveUp { attempts: 4 });
    let mut d = Delivery::new(3);
    for _ in 0..3 {
        d.record_outcome(false);
    }
    assert_eq!(d.record_outcome(true), WriterAction::Delivered { attempts: 4 });
}

#[test]
fn stop_flag_drops_buffered_batches() {
    assert_eq!(decide_batch(true), BatchDecision::Drop);
    assert_eq!(decide_batch(false), BatchDecision::Send);
}

#[test]
fn payload_escapes_like_serde_json() {
    let records = vec!["a\nb\u{1}\\\"\t\u{1f}é".to_string()];
    let body = insert_payload("t", &records).unwrap();
    let expected_record = serde_json::to_string(&records[0]).unwrap();
    assert_eq!(expected_record, "\"a\\nb\\u0001\\\\\\\"\\t\\u001fé\"");
    assert!(body.starts_with(&format!("{{\"json_records\":[{}]", expected_record)));
}

#[test]
fn zero_retries_still_tries_once() {
    let mut d = Delivery::new(0);
    assert_eq!(d.record_outcome(false), WriterAction::GiveUp { attempts: 1 });
    let mut d = Delivery::new(0);
    assert_eq!(d.record_outcome(true), WriterAction::Delivered { attempts: 1 });
}
