use griffin::config::{
    Config, ConfigError, HealthCheckConfig, HealthEntry, RemoteEntry, RemoteField,
};
use griffin::duration::{Interval, ParseError, TimeUnit};
use griffin::model::HealthCheckMethod;

/// Reads the text as YAML and the document as a configuration.
fn load(text: &[u8]) -> Result<Config, ConfigError> {
    let document = serde_yaml::from_slice::<serde_yaml::Value>(text)?;
    Config::new(&document)
}

#[test]
fn parse_correct_config() {
    let config = r###"
            remotes:
              - name: Foo Bar
                url: https://foo.bar
                health:
                  interval: 5min
        "###;

    match load(config.as_bytes()) {
        Ok(config) => {
            assert_eq!(config.remotes.len(), 1);
            let remote = &config.remotes[0];

            assert_eq!(remote.name.as_deref(), Some("Foo Bar"));
            assert_eq!(remote.url, "https://foo.bar");
            assert_eq!(
                remote.health.as_ref().unwrap().interval,
                Interval::new(5, TimeUnit::Minutes)
            );
        }
        Err(e) => {
            assert!(false, "Error parsing config {:?}", e);
        }
    }
}

#[test]
fn fail_on_invalid_config() {
    let config = r###"
            backends:
        "###;

    match load(config.as_bytes()) {
        Ok(_) => assert!(false),
        Err(_) => assert!(true),
    }
}

#[test]
fn missing_remotes_is_told_apart() {
    let config = "backends:\n";
    assert!(matches!(
        load(config.as_bytes()),
        Err(ConfigError::Remotes)
    ));
    assert!(matches!(
        load("remotes: 5\n".as_bytes()),
        Err(ConfigError::Remotes)
    ));
    assert!(matches!(
        load("- a\n- b\n".as_bytes()),
        Err(ConfigError::Remotes)
    ));
}

#[test]
fn malformed_yaml_is_a_serde_error() {
    let config = "remotes: [unclosed\n";
    assert!(matches!(
        load(config.as_bytes()),
        Err(ConfigError::Serde(_))
    ));
    let not_utf8: [u8; 3] = [0xff, 0xfe, 0x00];
    assert!(matches!(
        load(&not_utf8),
        Err(ConfigError::Serde(_))
    ));
}

#[test]
fn empty_remotes_is_a_valid_config() {
    let config = load("remotes: []\n".as_bytes()).unwrap();
    assert_eq!(config.remotes.len(), 0);
    let configuration = config.to_configuration();
    assert_eq!(configuration.backends.len(), 0);
    assert!(configuration.is_valid());
}

#[test]
fn missing_interval_defaults_to_thirty_seconds() {
    let config = "remotes:\n  - url: http://a\n    health: {}\n";
    let config = load(config.as_bytes()).unwrap();
    assert_eq!(
        config.remotes[0].health,
        Some(HealthCheckConfig {
            interval: Interval::new(30, TimeUnit::Seconds)
        })
    );
    assert_eq!(config.remotes[0].name, None);
    assert_eq!(HealthCheckConfig::default().interval.to_millis(), 30_000);
    assert_eq!(Interval::default(), Interval::new(30, TimeUnit::Seconds));
}

#[test]
fn health_may_be_left_out_or_null() {
    let config = "remotes:\n  - url: http://a\n  - url: http://b\n    health: ~\n    name: ~\n";
    let config = load(config.as_bytes()).unwrap();
    assert_eq!(config.remotes.len(), 2);
    assert_eq!(config.remotes[0].health, None);
    assert_eq!(config.remotes[1].health, None);
    assert_eq!(config.remotes[1].name, None);
    assert_eq!(config.remotes[1].url, "http://b");
}

#[test]
fn remotes_keep_their_order() {
    let config = "remotes:\n  - url: one\n  - url: two\n  - url: three\n";
    let config = load(config.as_bytes()).unwrap();
    let urls: Vec<&str> = config.remotes.iter().map(|r| r.url.as_str()).collect();
    assert_eq!(urls, vec!["one", "two", "three"]);
}

#[test]
fn field_errors_name_position_and_field() {
    let no_url = "remotes:\n  - url: ok\n  - name: x\n";
    assert!(matches!(
        load(no_url.as_bytes()),
        Err(ConfigError::Field {
            position: 1,
            field: RemoteField::Url
        })
    ));
    let url_not_text = "remotes:\n  - url: [a]\n";
    assert!(matches!(
        load(url_not_text.as_bytes()),
        Err(ConfigError::Field {
            position: 0,
            field: RemoteField::Url
        })
    ));
    let name_not_text = "remotes:\n  - url: a\n    name: [x]\n";
    assert!(matches!(
        load(name_not_text.as_bytes()),
        Err(ConfigError::Field {
            position: 0,
            field: RemoteField::Name
        })
    ));
    let health_not_mapping = "remotes:\n  - url: a\n    health: often\n";
    assert!(matches!(
        load(health_not_mapping.as_bytes()),
        Err(ConfigError::Field {
            position: 0,
            field: RemoteField::Health
        })
    ));
    let interval_not_text = "remotes:\n  - url: a\n    health:\n      interval: [1]\n";
    assert!(matches!(
        load(interval_not_text.as_bytes()),
        Err(ConfigError::Field {
            position: 0,
            field: RemoteField::Interval
        })
    ));
}

#[test]
fn one_bad_interval_rejects_the_whole_config() {
    let config = "remotes:\n  - url: a\n    health:\n      interval: 1h\n  - url: b\n    health:\n      interval: 0s\n  - url: c\n    health:\n      interval: soon\n";
    assert!(matches!(
        load(config.as_bytes()),
        Err(ConfigError::Interval {
            position: 1,
            error: ParseError::InvalidMagnitude
        })
    ));
    let config = "remotes:\n  - url: a\n    health:\n      interval: 5 min\n";
    assert!(matches!(
        load(config.as_bytes()),
        Err(ConfigError::Interval {
            position: 0,
            error: ParseError::InvalidFormat
        })
    ));
}

#[test]
fn entries_are_settled_without_a_document() {
    let entries = vec![
        RemoteEntry {
            name: Some("Foo".to_string()),
            url: "foo.example.com".to_string(),
            health: Some(HealthEntry {
                interval: Some("200MS".to_string()),
            }),
        },
        RemoteEntry {
            name: None,
            url: "bar.example.com".to_string(),
            health: Some(HealthEntry { interval: None }),
        },
        RemoteEntry {
            name: None,
            url: "baz.example.com".to_string(),
            health: None,
        },
    ];
    let config = Config::from_entries(&entries).unwrap();
    assert_eq!(config.remotes.len(), 3);
    assert_eq!(config.remotes[0].name.as_deref(), Some("Foo"));
    assert_eq!(config.remotes[0].url, "foo.example.com");
    assert_eq!(
        config.remotes[0].health.unwrap().interval,
        Interval::new(200, TimeUnit::Milliseconds)
    );
    assert_eq!(
        config.remotes[1].health.unwrap().interval,
        Interval::new(30, TimeUnit::Seconds)
    );
    assert_eq!(config.remotes[2].health, None);

    let bad = vec![RemoteEntry {
        name: None,
        url: "x".to_string(),
        health: Some(HealthEntry {
            interval: Some("12parsecs".to_string()),
        }),
    }];
    assert!(matches!(
        Config::from_entries(&bad),
        Err(ConfigError::Interval {
            position: 0,
            error: ParseError::InvalidFormat
        })
    ));
    assert_eq!(
        HealthCheckConfig::from_entry(&HealthEntry {
            interval: Some("0h".to_string())
        }),
        Err(ParseError::InvalidMagnitude)
    );
}

#[test]
fn documents_are_read_node_by_node() {
    let document: serde_yaml::Value =
        serde_yaml::from_str("remotes:\n  - url: u\n    name: n\n    health:\n      interval: 2h\n")
            .unwrap();
    let entries = RemoteEntry::read_all(&document).unwrap();
    assert_eq!(entries.len(), 1);
    assert_eq!(entries[0].url, "u");
    assert_eq!(entries[0].name.as_deref(), Some("n"));
    assert_eq!(
        entries[0].health.as_ref().unwrap().interval.as_deref(),
        Some("2h")
    );
    let node = &document["remotes"][0];
    let entry = RemoteEntry::from_node(node).unwrap();
    assert_eq!(entry.url, "u");
    let health = HealthEntry::from_node(node).unwrap().unwrap();
    assert_eq!(health.interval.as_deref(), Some("2h"));
    let config = Config::new(&document).unwrap();
    assert_eq!(
        config.remotes[0].health.unwrap().interval,
        Interval::new(2, TimeUnit::Hours)
    );
    let scalar: serde_yaml::Value = serde_yaml::from_str("just text").unwrap();
    assert!(matches!(
        Config::new(&scalar),
        Err(ConfigError::Remotes)
    ));
    assert_eq!(
        RemoteEntry::from_node(&scalar).unwrap_err(),
        RemoteField::Url
    );
}

#[test]
fn a_remote_becomes_a_backend_with_one_http_check() {
    let config = "remotes:\n  - name: Foo Bar\n    url: https://foo.bar\n    health:\n      interval: 5min\n  - url: https://quiet\n  - url: http://a.example.com:8080/status?deep=1\n    health: {}\n  - url: plain.example.com\n    health: {}\n";
    let config = load(config.as_bytes()).unwrap();
    let configuration = config.to_configuration();
    assert!(configuration.is_valid());
    assert_eq!(configuration.backends.len(), 4);
    let first = &configuration.backends[0];
    assert_eq!(first.name.as_deref(), Some("Foo Bar"));
    assert_eq!(first.host, "foo.bar");
    assert_eq!(first.health.len(), 1);
    assert_eq!(first.health[0].method, HealthCheckMethod::Http);
    assert_eq!(first.health[0].endpoint.as_deref(), Some("/"));
    assert_eq!(first.health[0].port, Some(443));
    assert_eq!(first.health[0].interval, Interval::new(5, TimeUnit::Minutes));
    let second = &configuration.backends[1];
    assert_eq!(second.name, None);
    assert_eq!(second.host, "quiet");
    assert_eq!(second.health.len(), 0);
    let third = &configuration.backends[2];
    assert_eq!(third.host, "a.example.com");
    assert_eq!(third.health[0].endpoint.as_deref(), Some("/status?deep=1"));
    assert_eq!(third.health[0].port, Some(8080));
    let fourth = &configuration.backends[3];
    assert_eq!(fourth.host, "plain.example.com");
    assert_eq!(fourth.health[0].endpoint.as_deref(), Some("/"));
    assert_eq!(fourth.health[0].port, None);
    let request = fourth.health[0].request(&fourth.host);
    assert_eq!(request.host, "plain.example.com");
    assert_eq!(request.port, Some(80));
    let backend = config.remotes[0].to_backend();
    assert_eq!(backend.host, "foo.bar");
}

#[test]
fn outside_errors_convert_into_config_errors() {
    let error = serde_yaml::from_str::<serde_yaml::Value>("[").unwrap_err();
    assert!(matches!(ConfigError::from(error), ConfigError::Serde(_)));
    let error = std::io::Error::new(std::io::ErrorKind::NotFound, "gone");
    assert!(matches!(ConfigError::from(error), ConfigError::Io(_)));
}


#[test]
fn aliases_are_read_however_many() {
    let mut config = String::from("common: &check\n  interval: 2min\nremotes:\n");
    for i in 0..40 {
        config.push_str(&format!("  - url: http://host{}\n    health: *check\n", i));
    }
    let config = load(config.as_bytes()).unwrap();
    assert_eq!(config.remotes.len(), 40);
    for (i, remote) in config.remotes.iter().enumerate() {
        assert_eq!(remote.url, format!("http://host{}", i));
        assert_eq!(
            remote.health.unwrap().interval,
            Interval::new(2, TimeUnit::Minutes)
        );
    }
}

#[test]
fn long_lines_and_comments_are_read() {
    let url = format!("https://example.com/{}", "x".repeat(400));
    let config = format!(
        "# {}\n# {}\nremotes:\n  - url: {}\n    name: [not, text]\n",
        "*".repeat(50),
        "-".repeat(300),
        url
    );
    assert!(matches!(
        load(config.as_bytes()),
        Err(ConfigError::Field {
            position: 0,
            field: RemoteField::Name
        })
    ));
    let config = format!("# {}\nremotes:\n  - url: {}\n", "*".repeat(50), url);
    let config = load(config.as_bytes()).unwrap();
    assert_eq!(config.remotes[0].url, url);
}
