use p2p_node::datasource::secrets::{
    aws_uri_encode, rewrite_signed_urls, scope_url, secret_key_ident, sql_lit,
};
use p2p_node::datasource::setup::{OptionsTable, Provider, Registered, StorageConfig, Unsealed};
use p2p_node::datasource::options::{ExtraOption, OptionMap};
use p2p_node::datasource::Opened;
use p2p_node::engine::{ScopedCredential, SignedInput};
use p2p_node::{
    default_provider, AzureProvider, CloudCredential, DataFormat, DataSourceError, GcsProvider,
    HttpsProvider, LocalFileProvider, ProviderOptions, ProviderRegistry, S3Provider,
    StorageProvider, StorageSetup, SEALED_TOKEN_PREFIX,
};

fn scoped(provider: &str, prefix: &str) -> ScopedCredential {
    ScopedCredential {
        provider: provider.to_string(),
        token: "{}".to_string(),
        prefix: prefix.to_string(),
        expires_at: 0,
    }
}

fn keys(key_id: &str, secret: &str) -> CloudCredential {
    CloudCredential {
        key_id: Some(key_id.into()),
        secret: Some(secret.into()),
        ..CloudCredential::blank()
    }
}

fn storage_config() -> StorageConfig {
    StorageConfig {
        enabled_providers: vec![],
        provider_options: vec![],
        endpoint: None,
        region: None,
        url_style: None,
        use_ssl: None,
        enable_remote_access: false,
        preload_extensions: vec![],
        allowed_local_paths: vec![],
        require_extensions: false,
        temp_file_encryption: false,
        max_result_bytes: 0,
    }
}

#[test]
fn format_extension_mapping() {
    assert!(DataFormat::Csv.required_extensions().is_empty());
    assert_eq!(DataFormat::Parquet.required_extensions(), vec!["parquet"]);
    assert_eq!(DataFormat::Delta.required_extensions(), vec!["delta", "parquet"]);
    assert_eq!(DataFormat::parse("DeltaLake"), DataFormat::Delta);
    assert_eq!(DataFormat::parse("orc"), DataFormat::Other("orc".into()));
}

#[test]
fn s3_secret_sql_scopes_and_includes_session_token() {
    let cred = CloudCredential {
        session_token: Some("sts-temp".into()),
        region: Some("eu-west-1".into()),
        ..keys("AKIA", "shh")
    };
    let sc = scoped("s3", "my-bucket/events/2024/");
    let sql = S3Provider
        .create_secret_sql("job_secret", &sc, Ok(cred), &ProviderOptions::unset())
        .unwrap()
        .unwrap();
    assert!(sql.contains("TYPE s3"));
    assert!(sql.contains("KEY_ID 'AKIA'"));
    assert!(sql.contains("SESSION_TOKEN 'sts-temp'"));
    assert!(sql.contains("REGION 'eu-west-1'"));
    // Scope is a fully-qualified, slash-terminated URL.
    assert!(sql.contains("SCOPE 's3://my-bucket/events/2024/'"), "{}", sql);
}

#[test]
fn minio_s3_secret_sql_includes_endpoint_url_style_use_ssl() {
    let cred = CloudCredential {
        region: Some("us-east-1".into()),
        endpoint: Some("minio.local:9000".into()),
        url_style: Some("path".into()),
        use_ssl: Some(false),
        ..keys("minioadmin", "miniosecret")
    };
    let sc = scoped("s3", "warehouse/delta/");
    let sql = S3Provider
        .create_secret_sql("job_secret", &sc, Ok(cred), &ProviderOptions::unset())
        .unwrap()
        .unwrap();
    assert!(sql.contains("TYPE s3"));
    assert!(sql.contains("ENDPOINT 'minio.local:9000'"), "{}", sql);
    assert!(sql.contains("URL_STYLE 'path'"), "{}", sql);
    // USE_SSL is an unquoted boolean literal.
    assert!(sql.contains("USE_SSL false"), "{}", sql);
    assert!(!sql.contains("USE_SSL 'false'"), "use_ssl must not be quoted: {}", sql);
    assert!(sql.contains("SCOPE 's3://warehouse/delta/'"), "{}", sql);
}

#[test]
fn provider_options_supply_minio_defaults_and_cred_overrides() {
    let opts = ProviderOptions {
        endpoint: Some("minio.local:9000".into()),
        region: Some("us-east-1".into()),
        url_style: Some("path".into()),
        use_ssl: Some(false),
        ..ProviderOptions::unset()
    };
    let cred = CloudCredential {
        // override use_ssl per call (TLS on for this job).
        use_ssl: Some(true),
        ..keys("k", "s")
    };
    let sc = scoped("s3", "b/");
    let sql = S3Provider.create_secret_sql("s", &sc, Ok(cred), &opts).unwrap().unwrap();
    assert!(sql.contains("ENDPOINT 'minio.local:9000'"), "{}", sql);
    assert!(sql.contains("URL_STYLE 'path'"), "{}", sql);
    assert!(sql.contains("REGION 'us-east-1'"), "{}", sql);
    assert!(sql.contains("USE_SSL true"), "cred overrides opts: {}", sql);
}

fn options(pairs: &[(&str, &str)]) -> OptionMap {
    let mut map = OptionMap::new();
    for (key, value) in pairs {
        map.insert(key.to_string(), value.to_string());
    }
    map
}

#[test]
fn options_come_by_key_and_once() {
    let map = options(&[("b", "1"), ("c", "2"), ("a", "3"), ("b", "4")]);
    let opt = |k: &str, v: &str| ExtraOption { key: k.into(), value: v.into() };
    assert_eq!(map.entries(), &vec![opt("a", "3"), opt("b", "4"), opt("c", "2")]);
    assert_eq!(map.get("b").as_deref(), Some("4"));
    assert_eq!(map.get("d"), None);
    assert_eq!(map.clone(), map);
    // The statement lists them in that order.
    let cred = CloudCredential { extra: options(&[("zz", "1"), ("aa", "2")]), ..keys("k", "s") };
    let sql = S3Provider
        .create_secret_sql("s", &scoped("s3", "b/"), Ok(cred), &ProviderOptions::unset())
        .unwrap()
        .unwrap();
    assert!(sql.contains("AA '2', ZZ '1', SCOPE"), "{}", sql);
}

#[test]
fn extra_secret_key_is_validated_against_sql_injection() {
    // A key is interpolated unquoted, so it must be an identifier.
    let cred = CloudCredential {
        extra: options(&[("evil) AS x; ATTACH 'h::memory:' AS p; --", "v")]),
        ..keys("k", "s")
    };
    let sc = scoped("s3", "b/");
    let err = S3Provider
        .create_secret_sql("s", &sc, Ok(cred), &ProviderOptions::unset())
        .unwrap_err();
    assert!(matches!(err, DataSourceError::InvalidSecretKey(_)), "got: {:?}", err);
}

#[test]
fn extra_secret_key_valid_identifier_is_accepted_and_uppercased() {
    let cred = CloudCredential {
        extra: options(&[("kms_key_id", "abc")]),
        ..keys("k", "s")
    };
    let sc = scoped("s3", "b/");
    let sql = S3Provider
        .create_secret_sql("s", &sc, Ok(cred), &ProviderOptions::unset())
        .unwrap()
        .unwrap();
    assert!(sql.contains("KMS_KEY_ID 'abc'"), "{}", sql);
}

#[test]
fn from_config_resolves_minio_options() {
    let mut cfg = storage_config();
    cfg.enabled_providers = vec!["s3".into()];
    cfg.provider_options = vec![OptionsTable {
        provider: "s3".into(),
        options: options(&[
            ("endpoint", "minio.local:9000"),
            ("url_style", "path"),
            ("use_ssl", "false"),
        ]),
    }];
    let setup = StorageSetup::from_config(&cfg);
    let opts = setup.providers.options_for("s3");
    assert_eq!(opts.endpoint.as_deref(), Some("minio.local:9000"));
    assert_eq!(opts.url_style.as_deref(), Some("path"));
    assert_eq!(opts.use_ssl, Some(false));
    // The reserved knobs are not leaked into `extra`.
    assert!(opts.extra.is_empty(), "{:?}", opts.extra);
}

#[test]
fn top_level_storage_defaults_reach_s3_without_options_table() {
    let mut cfg = storage_config();
    cfg.enabled_providers = vec!["s3".into()];
    cfg.endpoint = Some("minio.local:9000".into());
    cfg.url_style = Some("path".into());
    cfg.use_ssl = Some(false);
    let setup = StorageSetup::from_config(&cfg);
    let opts = setup.providers.options_for("s3");
    assert_eq!(opts.endpoint.as_deref(), Some("minio.local:9000"));
    assert_eq!(opts.url_style.as_deref(), Some("path"));
    assert_eq!(opts.use_ssl, Some(false));
}

/// A box that only one key opens.
struct Sealed {
    key: u64,
    cred: CloudCredential,
}

impl Sealed {
    fn payload(&self) -> String {
        format!("{:016x}", self.key)
    }

    fn open(&self, payload: &str, key: u64) -> Opened {
        if key == self.key && payload == self.payload() {
            Opened::Credential(self.cred.clone())
        } else {
            Opened::Failed
        }
    }
}

#[test]
fn sealed_credential_roundtrips_and_redacts_token() {
    let sealed = Sealed {
        key: 77,
        cred: CloudCredential {
            endpoint: Some("minio.local:9000".into()),
            url_style: Some("path".into()),
            use_ssl: Some(false),
            ..keys("minioadmin", "super-secret-key")
        },
    };
    let token = CloudCredential::seal_token(&sealed.payload());
    assert!(CloudCredential::is_sealed_token(&token));
    assert!(token.starts_with(SEALED_TOKEN_PREFIX));
    assert!(!token.contains("minioadmin"), "key id must not appear in token");
    assert!(!token.contains("super-secret-key"), "secret must not appear in token");
    // The worker opens it and recovers the full credential.
    let payload = CloudCredential::sealed_payload(&token).unwrap();
    let opened = CloudCredential::unseal(&token, sealed.open(&payload, 77)).unwrap();
    assert_eq!(opened, sealed.cred);
}

#[test]
fn sealed_token_rejected_by_plaintext_decoder() {
    let mut sc = scoped("s3", "b/");
    sc.token = CloudCredential::seal_token("00");
    // Without a key this must fail loudly, never mint empty credentials.
    assert!(matches!(
        CloudCredential::from_scoped(&sc, Ok(CloudCredential::blank())),
        Err(DataSourceError::SealingKeyUnavailable)
    ));
}

#[test]
fn wrong_worker_key_cannot_open_sealed_credential() {
    let sealed = Sealed { key: 77, cred: keys("k", "s") };
    let token = CloudCredential::seal_token(&sealed.payload());
    let payload = CloudCredential::sealed_payload(&token).unwrap();
    assert!(matches!(
        CloudCredential::unseal(&token, sealed.open(&payload, 78)),
        Err(DataSourceError::SealOpenFailed)
    ));
}

#[test]
fn storage_setup_unseals_credential_just_in_time() {
    let setup = StorageSetup::strict().with_sealing();
    let mut sealed = scoped("s3", "bucket/delta/");
    sealed.token = CloudCredential::seal_token("00ff");
    let resolved = setup
        .resolve_credential(&sealed, Unsealed::Token("{\"key_id\":\"minioadmin\"}".into()))
        .unwrap();
    // The resolved token is plaintext; the prefix/provider are preserved.
    assert_eq!(resolved.provider, "s3");
    assert_eq!(resolved.prefix, "bucket/delta/");
    assert_eq!(resolved.token, "{\"key_id\":\"minioadmin\"}");
    let opened =
        CloudCredential::from_scoped(&resolved, Ok(keys("minioadmin", "miniosecret"))).unwrap();
    assert_eq!(opened, keys("minioadmin", "miniosecret"));

    // A worker without a sealing key fails closed on a sealed token.
    let no_key = StorageSetup::strict();
    assert!(matches!(
        no_key.resolve_credential(&sealed, Unsealed::Token("{}".into())),
        Err(DataSourceError::SealingKeyUnavailable)
    ));
    // Plaintext tokens pass through unchanged.
    let plain = scoped("s3", "b/");
    assert_eq!(
        no_key
            .resolve_credential(&plain, Unsealed::Failed(DataSourceError::SealOpenFailed))
            .unwrap()
            .token,
        plain.token
    );
}

#[test]
fn s3_secret_requires_key_material() {
    let sc = scoped("s3", "b/");
    let err = S3Provider
        .create_secret_sql("s", &sc, Ok(CloudCredential::blank()), &ProviderOptions::unset())
        .unwrap_err();
    assert!(matches!(err, DataSourceError::MissingField(f, _) if f == "key_id"));
}

#[test]
fn azure_uses_connection_string_and_scope() {
    let cred = CloudCredential {
        connection_string: Some("BlobEndpoint=...;SharedAccessSignature=sv=...".into()),
        ..CloudCredential::blank()
    };
    let sc = scoped("az", "container/path/");
    let sql = AzureProvider
        .create_secret_sql("job_secret", &sc, Ok(cred), &ProviderOptions::unset())
        .unwrap()
        .unwrap();
    assert!(sql.contains("TYPE azure"));
    assert!(sql.contains("CONNECTION_STRING"));
    assert!(sql.contains("SCOPE 'azure://container/path/'"), "{}", sql);
}

#[test]
fn gcs_secret_sql() {
    let sc = scoped("gcs", "bucket/warehouse/");
    let sql = GcsProvider
        .create_secret_sql("job_secret", &sc, Ok(keys("GOOG1", "hmac")), &ProviderOptions::unset())
        .unwrap()
        .unwrap();
    assert!(sql.contains("TYPE gcs"));
    assert!(sql.contains("SCOPE 'gcs://bucket/warehouse/'"), "{}", sql);
}

#[test]
fn sql_injection_in_token_is_escaped() {
    let sc = scoped("s3", "b/");
    let sql = S3Provider
        .create_secret_sql(
            "s",
            &sc,
            Ok(keys("a' ); DROP SECRET x; --", "s")),
            &ProviderOptions::unset(),
        )
        .unwrap()
        .unwrap();
    // The embedded quote is doubled, so the statement is not broken out of.
    assert!(sql.contains("KEY_ID 'a'' ); DROP SECRET x; --'"), "{}", sql);
}

#[test]
fn https_and_local_need_no_secret() {
    let sc = scoped("https", "x/");
    assert!(HttpsProvider
        .create_secret_sql("s", &sc, Ok(CloudCredential::blank()), &ProviderOptions::unset())
        .unwrap()
        .is_none());
    let sc = scoped("local-fake", "x/");
    assert!(LocalFileProvider
        .create_secret_sql("s", &sc, Ok(CloudCredential::blank()), &ProviderOptions::unset())
        .unwrap()
        .is_none());
}

#[test]
fn rewrite_signed_urls_replaces_object_literals_only() {
    let signed = vec![
        SignedInput {
            uri: "s3://b/events/a.parquet".into(),
            url: "https://signed.example/a?sig=1".into(),
        },
        SignedInput {
            uri: "s3://b/events/b.parquet".into(),
            url: "https://signed.example/b?sig=2".into(),
        },
    ];
    let sql = "SELECT * FROM read_parquet('s3://b/events/a.parquet') \
               UNION ALL SELECT * FROM read_parquet('s3://b/events/b.parquet')";
    let out = rewrite_signed_urls(sql, &signed);
    assert!(out.contains("'https://signed.example/a?sig=1'"), "{}", out);
    assert!(out.contains("'https://signed.example/b?sig=2'"), "{}", out);
    // The object refs are gone: the worker reads only signed URLs.
    assert!(!out.contains("s3://b/events/a.parquet"), "{}", out);
    assert!(!out.contains("s3://b/events/b.parquet"), "{}", out);
}

#[test]
fn rewrite_signed_urls_prefers_longer_uris_first() {
    // A URI that is a prefix of another must not shadow the longer one.
    let signed = vec![
        SignedInput { uri: "s3://b/data".into(), url: "https://signed/short".into() },
        SignedInput { uri: "s3://b/data/file.parquet".into(), url: "https://signed/long".into() },
    ];
    let out = rewrite_signed_urls("FROM 's3://b/data/file.parquet'", &signed);
    assert_eq!(out, "FROM 'https://signed/long'");
}

#[test]
fn only_whole_literals_are_rewritten() {
    let signed = vec![SignedInput { uri: "s3://k".into(), url: "https://x".into() }];
    assert_eq!(rewrite_signed_urls("SELECT 's3://k'", &signed), "SELECT 'https://x'");
    // The quote before the URI belongs to a longer literal.
    assert_eq!(rewrite_signed_urls("SELECT 'a''s3://k'", &signed), "SELECT 'a''s3://k'");
    assert_eq!(rewrite_signed_urls("SELECT 's3://k''b'", &signed), "SELECT 's3://k''b'");
    assert_eq!(rewrite_signed_urls("SELECT 'x', s3://k, 's3://k", &signed), "SELECT 'x', s3://k, 's3://k");
}

#[test]
fn what_was_put_in_is_not_rewritten_again() {
    let signed = vec![
        SignedInput { uri: "a".into(), url: "b".into() },
        SignedInput { uri: "b".into(), url: "c".into() },
    ];
    assert_eq!(rewrite_signed_urls("f('a', 'b')", &signed), "f('b', 'c')");
    // A quote in a URI or a URL is doubled.
    let quoted = vec![SignedInput { uri: "it's".into(), url: "o'k".into() }];
    assert_eq!(rewrite_signed_urls("f('it''s')", &quoted), "f('o''k')");
}

#[test]
fn encodings_tell_texts_apart() {
    assert_eq!(aws_uri_encode("%2F/", true), "%252F%2F");
    assert_eq!(aws_uri_encode("/", false), "/");
    assert_ne!(aws_uri_encode("a b", true), aws_uri_encode("a%20b", true));
    let e = aws_uri_encode("\u{0}ÿ€", true);
    assert_eq!(e, "%00%C3%BF%E2%82%AC");
}

#[test]
fn a_token_is_sealed_by_its_mark() {
    assert!(CloudCredential::is_sealed_token("sealed:v1:00"));
    assert!(CloudCredential::is_sealed_token(" \n\tsealed:v1:00"));
    assert!(!CloudCredential::is_sealed_token(" {\"key_id\":\"sealed:v1:\"}"));
    assert!(!CloudCredential::is_sealed_token("sealed:v2:00"));
}

#[test]
fn aws_uri_encode_preserves_unreserved_and_path() {
    assert_eq!(aws_uri_encode("a/b-c_d.e~f", false), "a/b-c_d.e~f");
    assert_eq!(aws_uri_encode("a/b", true), "a%2Fb");
    assert_eq!(aws_uri_encode("x y+z", false), "x%20y%2Bz");
}

#[test]
fn registry_selects_provider_by_credential() {
    let mut reg = ProviderRegistry::new();
    reg.register(Provider::S3);
    let sc = scoped("s3", "b/p/");
    let sql = reg.secret_sql_for("job_secret", &sc, Ok(keys("k", "s")), Ok(None)).unwrap().unwrap();
    assert!(sql.contains("TYPE s3"));

    let unknown = scoped("r2", "b/");
    assert!(matches!(
        reg.secret_sql_for("job_secret", &unknown, Ok(keys("k", "s")), Ok(None)),
        Err(DataSourceError::UnknownProvider(_))
    ));
}

#[test]
fn a_whole_secret_reads_as_one_statement() {
    let sc = scoped("gcs", "bucket/x");
    let sql = GcsProvider
        .create_secret_sql("job", &sc, Ok(keys("id", "sec")), &ProviderOptions::unset())
        .unwrap()
        .unwrap();
    assert_eq!(
        sql,
        "CREATE OR REPLACE SECRET job (TYPE gcs, KEY_ID 'id', SECRET 'sec', SCOPE 'gcs://bucket/x/');"
    );
}

#[test]
fn bytes_beyond_ascii_are_percent_encoded() {
    assert_eq!(aws_uri_encode("é", false), "%C3%A9");
}

#[test]
fn quotes_are_doubled() {
    assert_eq!(sql_lit("it's"), "'it''s'");
    assert_eq!(sql_lit(""), "''");
}

#[test]
fn scopes_end_in_a_slash() {
    assert_eq!(scope_url("s3", "b/p"), "s3://b/p/");
    assert_eq!(scope_url("s3", "b/p/"), "s3://b/p/");
    assert_eq!(scope_url("s3", "s3://b/p"), "s3://b/p/");
}

#[test]
fn option_names_are_identifiers_in_capitals() {
    assert_eq!(secret_key_ident("account_1").unwrap(), "ACCOUNT_1");
    assert_eq!(
        secret_key_ident("a b").unwrap_err(),
        DataSourceError::InvalidSecretKey("a b".into())
    );
    assert!(secret_key_ident("").is_err());
}

#[test]
fn missing_or_malformed_material_is_named() {
    let sc = scoped("az", "c/");
    let err = AzureProvider
        .create_secret_sql("s", &sc, Ok(CloudCredential::blank()), &ProviderOptions::unset())
        .unwrap_err();
    assert!(matches!(err, DataSourceError::MissingField(f, _) if f == "connection_string"));
    let err = S3Provider
        .create_secret_sql("s", &sc, Err("bad json".into()), &ProviderOptions::unset())
        .unwrap_err();
    assert!(matches!(err, DataSourceError::MalformedToken(_)));
    assert!(matches!(
        CloudCredential::unseal("sealed:v1:00", Opened::Malformed("not json".into())),
        Err(DataSourceError::MalformedToken(_))
    ));
    assert!(CloudCredential::sealed_payload("plain").is_err());
}

#[test]
fn every_error_has_its_text() {
    for (e, text) in [
        (DataSourceError::UnknownProvider("r2".into()), "unknown storage provider: r2"),
        (
            DataSourceError::MissingField("key_id".into(), "s3".into()),
            "credential is missing required field `key_id` for provider `s3`",
        ),
        (DataSourceError::MalformedToken("x".into()), "malformed credential token: x"),
        (DataSourceError::UnsupportedFormat("orc".into()), "unsupported data format: orc"),
        (
            DataSourceError::SealingKeyUnavailable,
            "sealed credential supplied but no worker sealing key is available to open it",
        ),
        (
            DataSourceError::SealOpenFailed,
            "failed to open sealed credential (wrong recipient key or tampered ciphertext)",
        ),
        (
            DataSourceError::InvalidSecretKey("a b".into()),
            "invalid secret option key `a b` (must match [A-Z_][A-Z0-9_]*)",
        ),
    ] {
        assert_eq!(e.message(), text);
    }
}

#[test]
fn providers_are_known_by_their_ids() {
    assert_eq!(default_provider("s3"), Some(Provider::S3));
    assert_eq!(default_provider("nope"), None);
    assert_eq!(Provider::Azure.provider_id(), "az");
    assert_eq!(S3Provider.url_schemes(), vec!["s3"]);
    assert_eq!(S3Provider.required_extensions(), vec!["httpfs"]);
}

#[test]
fn formats_go_by_their_names() {
    for (name, f) in [
        ("csv", DataFormat::Csv),
        ("json", DataFormat::Json),
        ("parquet", DataFormat::Parquet),
        ("delta", DataFormat::Delta),
        ("iceberg", DataFormat::Iceberg),
    ] {
        assert_eq!(DataFormat::parse(name), f);
        assert_eq!(f.as_str(), name);
    }
    assert_eq!(DataFormat::Other("orc".into()).as_str(), "orc");
}

#[test]
fn a_registered_provider_of_ones_own_answers() {
    let mut reg = ProviderRegistry::new();
    reg.register(Provider::S3);
    reg.register_custom("r2", 4);
    assert_eq!(reg.get("r2"), Some(Registered::Custom(4)));
    let answer = || Ok(Some("CREATE SECRET mine;".to_string()));
    let sql = reg.secret_sql_for("s", &scoped("r2", "b/"), Ok(keys("k", "s")), answer());
    assert_eq!(sql.unwrap().as_deref(), Some("CREATE SECRET mine;"));
    // A known provider is asked in its own place, until another takes its name.
    let sql = reg.secret_sql_for("s", &scoped("s3", "b/"), Ok(keys("k", "s")), answer());
    assert!(sql.unwrap().unwrap().contains("TYPE s3"));
    reg.register_custom("s3", 5);
    assert_eq!(reg.get("s3"), Some(Registered::Custom(5)));
    reg.register(Provider::S3);
    assert_eq!(reg.get("s3"), Some(Registered::Known(Provider::S3)));
}

#[test]
fn quotes_in_comments_and_names_begin_no_literal() {
    let signed = vec![SignedInput { uri: "s3://k".into(), url: "https://x".into() }];
    let cases = [
        ("-- it's\nFROM 's3://k'", "-- it's\nFROM 'https://x'"),
        ("/* it's /* nested' */ ' */ FROM 's3://k'", "/* it's /* nested' */ ' */ FROM 'https://x'"),
        ("SELECT \"it's\" FROM 's3://k'", "SELECT \"it's\" FROM 'https://x'"),
        ("SELECT \"a\"\"'b\" FROM 's3://k'", "SELECT \"a\"\"'b\" FROM 'https://x'"),
        ("SELECT $$it's$$, 's3://k'", "SELECT $$it's$$, 'https://x'"),
        ("SELECT $q$'$q$, 's3://k'", "SELECT $q$'$q$, 'https://x'"),
        ("SELECT E'it\\'s', 's3://k'", "SELECT E'it\\'s', 'https://x'"),
        ("SELECT E's3://k', $1, 's3://k'", "SELECT E'https://x', $1, 'https://x'"),
        ("SELECT 1 - -1, 's3://k'", "SELECT 1 - -1, 'https://x'"),
        // What stands in a comment or a name is left alone.
        ("-- 's3://k'\n'a'", "-- 's3://k'\n'a'"),
        ("SELECT \"'s3://k'\"", "SELECT \"'s3://k'\""),
    ];
    for (sql, expected) in cases {
        assert_eq!(rewrite_signed_urls(sql, &signed), expected);
    }
}
