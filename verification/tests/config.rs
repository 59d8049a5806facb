//! Rules, conditions and sources.
use sigil::config::{
    lease_str, secret_looking_name, Action, Config, FlagEq, LegacyCommand, LegacyStore, Match, PlainVars,
    Resolution, ResolvedAction, Rule, RuleMode, Source, ENV_PROVIDER, VERSION,
};
use sigil::config::files::{ConfigRead, LegacyRead};
use sigil::policy::{LeasePolicy, COVERS_MAX_CHARS};

fn argv(parts: &[&str]) -> Vec<String> {
    parts.iter().map(|s| s.to_string()).collect()
}

#[test]
fn a_flag_with_no_leading_dash_is_reported_as_dead() {
    let m = Match {
        command: Some("op".into()),
        flag_present: vec!["no-input".into(), "--quiet".into()],
        flag_equals: vec![
            FlagEq {
                flag: "account".into(),
                value: "rowmhq.1password.eu".into(),
            },
            FlagEq {
                flag: "--vault".into(),
                value: "Engineering".into(),
            },
        ],
        ..Match::default()
    };
    assert_eq!(m.dead_flags(), vec!["no-input", "account"]);
    assert!(
        !m.matches(&argv(&[
            "op",
            "--no-input",
            "--quiet",
            "--account=rowmhq.1password.eu",
            "--vault=Engineering"
        ])),
        "and it really does not match, which is the whole problem"
    );

    let fixed = Match {
        flag_present: vec!["--quiet".into()],
        flag_equals: vec![FlagEq {
            flag: "--vault".into(),
            value: "Engineering".into(),
        }],
        ..m
    };
    assert!(fixed.dead_flags().is_empty());
    assert!(fixed.matches(&argv(&["op", "--quiet", "--vault=Engineering"])));
}

fn gate(r: Resolution) -> ResolvedAction {
    match r {
        Resolution::Gate(a) => a,
        Resolution::Allow { rule } => panic!("expected a gate resolution, got allow({rule})"),
    }
}

#[test]
fn empty_match_never_matches() {
    assert!(!Match::default().matches(&argv(&["op", "read"])));
}

#[test]
fn command_and_argv_contains_and_together() {
    let m = Match {
        command: Some("op".into()),
        argv_contains: vec!["read".into()],
        ..Match::default()
    };
    assert!(m.matches(&argv(&["op", "read", "op://V/i/f"])));
    assert!(!m.matches(&argv(&["op", "item", "get"]))); // no "read"
    assert!(!m.matches(&argv(&["gcloud", "read"])));
}

#[test]
fn subcommand_matches_argv1() {
    let m = Match {
        subcommand: Some("read".into()),
        ..Match::default()
    };
    assert!(m.matches(&argv(&["op", "read", "x"])));
    assert!(!m.matches(&argv(&["op", "item", "get"])));
}

#[test]
fn flag_present_and_equals() {
    let m = Match {
        flag_present: vec!["--vault".into()],
        ..Match::default()
    };
    assert!(m.matches(&argv(&["op", "read", "--vault", "Eng"])));
    assert!(m.matches(&argv(&["op", "read", "--vault=Eng"])));
    assert!(!m.matches(&argv(&["op", "read"])));

    let eq = Match {
        flag_equals: vec![FlagEq {
            flag: "--project".into(),
            value: "prod".into(),
        }],
        ..Match::default()
    };
    assert!(eq.matches(&argv(&["gcloud", "--project=prod"])));
    assert!(eq.matches(&argv(&["gcloud", "--project", "prod"])));
    assert!(!eq.matches(&argv(&["gcloud", "--project", "dev"])));
}

#[test]
fn regex_condition_is_deferred_and_fails_closed() {
    let m = Match {
        command: Some("op".into()),
        arg_regex: Some(".*".into()),
        ..Match::default()
    };
    assert!(
        !m.matches(&argv(&["op", "read"])),
        "a set regex must not match until it is implemented"
    );
}

#[test]
fn coverage_has_words_for_an_empty_command() {
    let bare = Match { command: Some(String::new()), ..Match::default() };
    assert_eq!(bare.coverage(), "the empty command");
    let more = Match { subcommand: Some("read".into()), ..bare };
    assert_eq!(more.coverage(), " read");
}

#[test]
fn coverage_renders_each_match_shape() {
    assert_eq!(
        Match {
            command: Some("op".into()),
            ..Match::default()
        }
        .coverage(),
        "op"
    );

    assert_eq!(
        Match {
            command: Some("op".into()),
            subcommand: Some("read".into()),
            ..Match::default()
        }
        .coverage(),
        "op read"
    );

    assert_eq!(
        Match {
            command: Some("op".into()),
            flag_equals: vec![FlagEq {
                flag: "--account".into(),
                value: "rowmhq.1password.eu".into(),
            }],
            ..Match::default()
        }
        .coverage(),
        "op with --account \"rowmhq.1password.eu\""
    );

    assert_eq!(
        Match {
            command: Some("op".into()),
            subcommand: Some("read".into()),
            flag_equals: vec![FlagEq {
                flag: "--vault".into(),
                value: "Shared Eng".into(),
            }],
            ..Match::default()
        }
        .coverage(),
        "op read with --vault \"Shared Eng\""
    );
    assert_eq!(
        Match {
            command: Some("curl".into()),
            flag_equals: vec![FlagEq {
                flag: "--host".into(),
                value: "github.example.com:8443".into(),
            }],
            ..Match::default()
        }
        .coverage(),
        "curl with --host \"github.example.com:8443\""
    );

    assert_eq!(
        Match {
            command: Some("op".into()),
            flag_present: vec!["--vault".into()],
            ..Match::default()
        }
        .coverage(),
        "op with --vault"
    );

    assert_eq!(
        Match {
            command: Some("op".into()),
            argv_contains: vec!["Engineering".into()],
            ..Match::default()
        }
        .coverage(),
        "op containing \"Engineering\""
    );

    assert_eq!(
        Match {
            command: Some("op".into()),
            subcommand: Some("read".into()),
            flag_present: vec!["--vault".into()],
            argv_contains: vec!["prod".into()],
            ..Match::default()
        }
        .coverage(),
        "op read with --vault, containing \"prod\""
    );

    assert_eq!(
        Match {
            command: Some("gcloud".into()),
            flag_equals: vec![FlagEq {
                flag: "--project".into(),
                value: "prod".into(),
            }],
            flag_present: vec!["--quiet".into()],
            ..Match::default()
        }
        .coverage(),
        "gcloud with --project \"prod\" and --quiet"
    );

    assert_eq!(
        Match {
            subcommand: Some("read".into()),
            ..Match::default()
        }
        .coverage(),
        "any command with the subcommand read"
    );
    assert_eq!(
        Match {
            argv_contains: vec!["prod".into()],
            ..Match::default()
        }
        .coverage(),
        "any command containing \"prod\""
    );

    let re = Match {
        command: Some("op".into()),
        arg_regex: Some("^op://Engineering/.*$".into()),
        ..Match::default()
    }
    .coverage();
    assert_eq!(re, "op matching a pattern");
    assert!(!re.contains("op://"));
}

#[test]
fn coverage_is_bounded_and_summarizes_a_busy_rule() {
    let busy = Match {
        command: Some("op".into()),
        subcommand: Some("read".into()),
        flag_present: vec!["--a".into(), "--b".into()],
        argv_contains: vec!["x".into(), "y".into(), "z".into()],
        ..Match::default()
    };
    assert_eq!(busy.coverage(), "op read with 5 match conditions");
    assert!(busy.coverage().chars().count() <= COVERS_MAX_CHARS);

    let long_values = Match {
        command: Some("op".into()),
        flag_equals: vec![
            FlagEq {
                flag: "--account".into(),
                value: "a".repeat(40),
            },
            FlagEq {
                flag: "--vault".into(),
                value: "b".repeat(40),
            },
        ],
        ..Match::default()
    };
    assert_eq!(long_values.coverage(), "op with 2 match conditions");

    let one_long = Match {
        command: Some("op".into()),
        flag_equals: vec![FlagEq {
            flag: "--account".into(),
            value: "c".repeat(200),
        }],
        ..Match::default()
    };
    assert!(one_long.coverage().chars().count() <= COVERS_MAX_CHARS);
    assert!(one_long.coverage().contains('\u{2026}'));

    let huge = Match {
        command: Some("d".repeat(500)),
        ..Match::default()
    };
    let stamped = LeasePolicy::leasable(60).with_covers(&huge.coverage());
    assert!(stamped.covers().chars().count() <= COVERS_MAX_CHARS);

    let single = Match {
        command: Some("e".repeat(60)),
        flag_equals: vec![FlagEq {
            flag: "f".repeat(40),
            value: "g".repeat(40),
        }],
        ..Match::default()
    };
    assert!(
        single.coverage().ends_with("with 1 match condition"),
        "got {}",
        single.coverage()
    );

    let both_long = Match {
        command: Some("c".repeat(60)),
        subcommand: Some("s".repeat(60)),
        flag_present: vec!["--a".into(), "--b".into()],
        argv_contains: vec!["x".into(), "y".into()],
        ..Match::default()
    };
    let summary = both_long.coverage();
    assert!(
        summary.ends_with("with 4 match conditions"),
        "the count clause must survive the bound intact: {summary}"
    );
    assert!(
        summary.chars().count() <= COVERS_MAX_CHARS,
        "{} chars: {summary}",
        summary.chars().count()
    );
    let stamped_both = LeasePolicy::leasable(60).with_covers(&summary);
    assert_eq!(stamped_both.covers(), summary);
    assert!(stamped_both.covers().ends_with("with 4 match conditions"));
    assert!(stamped_both.covers().starts_with("cccc"));
}

#[test]
fn coverage_degrades_a_condition_it_cannot_render_to_the_count() {
    let vault = |v: &str| Match {
        command: Some("op".into()),
        subcommand: Some("read".into()),
        flag_equals: vec![FlagEq {
            flag: "--vault".into(),
            value: v.into(),
        }],
        ..Match::default()
    };

    for v in ["\u{65e5}\u{672c}", "\u{4e2d}\u{56fd}", "   ", "\u{202e}"] {
        assert_eq!(
            vault(v).coverage(),
            "op read with 1 match condition",
            "unrenderable value {v:?} was quoted as though it named a vault"
        );
    }

    let accented = vault("Ing\u{e9}nierie");
    assert_eq!(accented.coverage(), "op read with --vault \"Ingénierie\"");
    assert_eq!(
        LeasePolicy::leasable(60)
            .with_covers(&accented.coverage())
            .covers(),
        "op read with --vault \"Ing\u{fffd}nierie\""
    );

    let needle = Match {
        command: Some("op".into()),
        argv_contains: vec!["\u{30a8}\u{30f3}".into()],
        ..Match::default()
    };
    assert_eq!(needle.coverage(), "op with 1 match condition");
    let flag = Match {
        command: Some("op".into()),
        flag_present: vec!["\u{30d5}\u{30e9}\u{30b0}".into()],
        ..Match::default()
    };
    assert_eq!(flag.coverage(), "op with 1 match condition");

    let mixed = Match {
        command: Some("op".into()),
        flag_equals: vec![
            FlagEq {
                flag: "--account".into(),
                value: "rowmhq.1password.eu".into(),
            },
            FlagEq {
                flag: "--vault".into(),
                value: "\u{65e5}\u{672c}".into(),
            },
        ],
        ..Match::default()
    };
    assert_eq!(mixed.coverage(), "op with 2 match conditions");
    assert_eq!(
        LeasePolicy::leasable(60)
            .with_covers(&mixed.coverage())
            .covers(),
        "op with 2 match conditions"
    );
}

#[test]
fn resolve_stamps_the_coverage_label_only_on_a_leasable_rule() {
    let mut cfg = Config::default();
    cfg.add_source(Source {
        name: "op".into(),
        provider: "1password".into(),
        account: None,
        path: None,
        keys: Vec::new(),
        plain: PlainVars::new(),
    })
    .unwrap();
    cfg.add_rule(Rule {
        name: "op-read".into(),
        match_: Match {
            command: Some("op".into()),
            subcommand: Some("read".into()),
            ..Match::default()
        },
        action: Action {
            mode: RuleMode::Gate,
            source: "op".into(),
            lease: LeasePolicy::leasable(900),
            timeout_sec: None,
        },
    })
    .unwrap();
    cfg.add_rule(Rule {
        name: "op-item".into(),
        match_: Match {
            command: Some("op".into()),
            subcommand: Some("item".into()),
            ..Match::default()
        },
        action: Action {
            mode: RuleMode::Gate,
            source: "op".into(),
            lease: LeasePolicy::RunOnce,
            timeout_sec: None,
        },
    })
    .unwrap();

    let leasable = gate(cfg.resolve(&argv(&["op", "read", "op://V/i/f"])).unwrap());
    assert_eq!(leasable.rule, "op-read");
    assert_eq!(leasable.lease.covers(), "op read");

    let once = gate(cfg.resolve(&argv(&["op", "item", "get", "x"])).unwrap());
    assert_eq!(once.lease, LeasePolicy::RunOnce);
    assert_eq!(once.lease.covers(), "");
}

#[test]
fn a_hand_edited_covers_on_disk_is_ignored_by_resolve() {
    let cfg = Config {
        version: 1,
        sources: vec![Source {
            name: "op".into(),
            provider: "1password".into(),
            account: None,
            path: None,
            keys: Vec::new(),
            plain: PlainVars::new(),
        }],
        rules: vec![Rule {
            name: "op-read".into(),
            match_: Match {
                command: Some("op".into()),
                subcommand: Some("read".into()),
                ..Match::default()
            },
            action: Action {
                mode: RuleMode::Gate,
                source: "op".into(),
                lease: LeasePolicy::Leasable {
                    max_secs: 900,
                    covers: "only this one harmless secret".into(),
                },
                timeout_sec: None,
            },
        }],
    };
    let a = gate(cfg.resolve(&argv(&["op", "read", "op://V/i/f"])).unwrap());
    assert_eq!(a.lease.covers(), "op read");
}

#[test]
fn resolving_never_writes_the_label_back_into_the_config() {
    let mut cfg = Config::default();
    cfg.add_source(Source {
        name: "op".into(),
        provider: "1password".into(),
        account: None,
        path: None,
        keys: Vec::new(),
        plain: PlainVars::new(),
    })
    .unwrap();
    cfg.add_rule(Rule {
        name: "op-read".into(),
        match_: Match {
            command: Some("op".into()),
            subcommand: Some("read".into()),
            ..Match::default()
        },
        action: Action {
            mode: RuleMode::Gate,
            source: "op".into(),
            lease: LeasePolicy::leasable(900),
            timeout_sec: None,
        },
    })
    .unwrap();

    let r = gate(cfg.resolve(&argv(&["op", "read", "op://V/i/f"])).unwrap());
    assert_eq!(r.lease.covers(), "op read");
    assert_eq!(cfg.rules[0].action.lease.covers(), "");
    assert_eq!(cfg.rules[0].action.lease, LeasePolicy::leasable(900));
}

#[test]
fn resolve_first_match_wins_and_flattens_source() {
    let mut cfg = Config::default();
    cfg.add_source(Source {
        name: "rowm-op".into(),
        provider: "1password".into(),
        account: Some("Rowm".into()),
        path: None,
        keys: Vec::new(),
        plain: PlainVars::new(),
    })
    .unwrap();
    cfg.add_source(Source {
        name: "gc".into(),
        provider: "env-file".into(),
        account: None,
        path: Some("/x/.env".into()),
        keys: Vec::new(),
        plain: PlainVars::new(),
    })
    .unwrap();
    cfg.add_rule(Rule {
        name: "op-read".into(),
        match_: Match {
            command: Some("op".into()),
            argv_contains: vec!["read".into()],
            ..Match::default()
        },
        action: Action {
            mode: RuleMode::Gate,
            source: "rowm-op".into(),
            lease: LeasePolicy::leasable(900),
            timeout_sec: Some(60),
        },
    })
    .unwrap();
    cfg.add_rule(Rule {
        name: "gcloud".into(),
        match_: Match {
            command: Some("gcloud".into()),
            ..Match::default()
        },
        action: Action {
            mode: RuleMode::Gate,
            source: "gc".into(),
            lease: LeasePolicy::RunOnce,
            timeout_sec: None,
        },
    })
    .unwrap();

    let r = gate(cfg.resolve(&argv(&["op", "read", "op://V/i/f"])).unwrap());
    assert_eq!(r.rule, "op-read");
    assert_eq!(r.provider, "1password");
    assert_eq!(r.account.as_deref(), Some("Rowm"));
    assert_eq!(
        r.lease,
        LeasePolicy::leasable(900).with_covers("op containing \"read\"")
    );
    assert_eq!(r.timeout_sec, Some(60));

    let g = gate(cfg.resolve(&argv(&["gcloud", "auth"])).unwrap());
    assert_eq!(g.provider, "env-file");
    assert_eq!(g.source_path.as_deref(), Some("/x/.env"));

    assert!(cfg.resolve(&argv(&["kubectl", "get"])).is_none());
}

#[test]
fn resolve_flattens_inline_env_keys_and_source_name() {
    let mut cfg = Config::default();
    cfg.add_source(Source {
        name: "deploy-env".into(),
        provider: ENV_PROVIDER.into(),
        account: None,
        path: None,
        keys: vec!["TOKEN".into(), "REGION".into()],
        plain: PlainVars::new(),
    })
    .unwrap();
    cfg.add_rule(Rule {
        name: "deploy".into(),
        match_: Match {
            command: Some("deploy".into()),
            ..Match::default()
        },
        action: Action {
            mode: RuleMode::Gate,
            source: "deploy-env".into(),
            lease: LeasePolicy::RunOnce,
            timeout_sec: None,
        },
    })
    .unwrap();
    let r = gate(cfg.resolve(&argv(&["deploy", "--now"])).unwrap());
    assert_eq!(r.provider, "env");
    assert_eq!(r.source_name, "deploy-env");
    assert_eq!(r.env_keys, vec!["TOKEN".to_string(), "REGION".to_string()]);
    assert_eq!(r.source_path, None);
    assert_eq!(r.account, None);
}

fn one_source_cfg(provider: &str, keys: &[&str], plain: &[(&str, &str)]) -> Config {
    let mut cfg = Config::default();
    cfg.add_source(Source {
        name: "s".into(),
        provider: provider.into(),
        account: None,
        path: None,
        keys: keys.iter().map(|k| k.to_string()).collect(),
        plain: PlainVars::from_pairs(
            plain
                .iter()
                .map(|(k, v)| (k.to_string(), v.to_string()))
                .collect(),
        ),
    })
    .unwrap();
    cfg.add_rule(Rule {
        name: "r".into(),
        match_: Match {
            command: Some("tool".into()),
            ..Match::default()
        },
        action: Action {
            mode: RuleMode::Gate,
            source: "s".into(),
            lease: LeasePolicy::RunOnce,
            timeout_sec: None,
        },
    })
    .unwrap();
    cfg
}

#[test]
fn resolve_carries_the_sources_plain_vars_sorted() {
    let cfg = one_source_cfg(
        ENV_PROVIDER,
        &["OP_SERVICE_ACCOUNT_TOKEN"],
        &[
            ("OP_CONFIG_DIR", "/tmp/scratch"),
            ("OP_BIOMETRIC_UNLOCK_ENABLED", "false"),
        ],
    );
    let r = gate(cfg.resolve(&argv(&["tool", "run"])).unwrap());
    assert_eq!(
        r.plain_env,
        vec![
            (
                "OP_BIOMETRIC_UNLOCK_ENABLED".to_string(),
                "false".to_string()
            ),
            ("OP_CONFIG_DIR".to_string(), "/tmp/scratch".to_string()),
        ],
        "sorted by name, so a spawn env is built the same way every time"
    );
    assert_eq!(r.env_keys, vec!["OP_SERVICE_ACCOUNT_TOKEN".to_string()]);
}

#[test]
fn a_source_with_only_plain_vars_resolves_as_a_live_gate() {
    let cfg = one_source_cfg(
        ENV_PROVIDER,
        &[],
        &[("OP_BIOMETRIC_UNLOCK_ENABLED", "false")],
    );
    let r = gate(cfg.resolve(&argv(&["tool", "run"])).unwrap());
    assert!(r.env_keys.is_empty());
    assert_eq!(r.plain_env.len(), 1);
}

#[test]
fn secret_looking_names_are_flagged_and_ordinary_ones_are_not() {
    for name in [
        "GITHUB_TOKEN",
        "aws_secret_access_key",
        "MY_PASSWORD_FILE",
        "OP_SERVICE_ACCOUNT_TOKEN",
        "SSH_KEY_PATH",
        "GCP_CREDENTIALS",
        "apikey_prod",
        "GH_PAT",
        "PAT_GITHUB",
    ] {
        assert!(
            secret_looking_name(name).is_some(),
            "{name} should trip the guardrail"
        );
    }
    for name in [
        "OP_BIOMETRIC_UNLOCK_ENABLED",
        "OP_CONFIG_DIR",
        "HOME",
        "PATH",
        "NO_COLOR",
        "AWS_REGION",
        "COMPATIBILITY_MODE",
    ] {
        assert_eq!(
            secret_looking_name(name),
            None,
            "{name} is an ordinary behavior switch and must not be refused"
        );
    }
}

#[test]
fn gates_command_is_command_keyed() {
    let mut cfg = Config::default();
    cfg.add_source(Source {
        name: "s".into(),
        provider: "env-file".into(),
        account: None,
        path: Some("/x".into()),
        keys: Vec::new(),
        plain: PlainVars::new(),
    })
    .unwrap();
    cfg.add_rule(Rule {
        name: "op".into(),
        match_: Match {
            command: Some("op".into()),
            ..Match::default()
        },
        action: Action {
            mode: RuleMode::Gate,
            source: "s".into(),
            lease: LeasePolicy::RunOnce,
            timeout_sec: None,
        },
    })
    .unwrap();
    cfg.add_rule(Rule {
        name: "sub-only".into(),
        match_: Match {
            subcommand: Some("read".into()),
            ..Match::default()
        },
        action: Action {
            mode: RuleMode::Gate,
            source: "s".into(),
            lease: LeasePolicy::RunOnce,
            timeout_sec: None,
        },
    })
    .unwrap();
    assert!(cfg.gates_command("op"));
    assert!(!cfg.gates_command("read"));
    assert!(!cfg.gates_command("gcloud"));
}

#[test]
fn matched_rule_with_unknown_source_fails_closed_not_downgrade() {
    let cfg = Config {
        version: VERSION,
        sources: vec![Source {
            name: "real".into(),
            provider: "env-file".into(),
            account: None,
            path: Some("/x/.env".into()),
            keys: Vec::new(),
            plain: PlainVars::new(),
        }],
        rules: vec![
            Rule {
                name: "specific".into(),
                match_: Match {
                    command: Some("op".into()),
                    argv_contains: vec!["read".into()],
                    ..Match::default()
                },
                action: Action {
                    mode: RuleMode::Gate,
                    source: "GONE".into(),
                    lease: LeasePolicy::RunOnce,
                    timeout_sec: None,
                },
            },
            Rule {
                name: "broad".into(),
                match_: Match {
                    command: Some("op".into()),
                    ..Match::default()
                },
                action: Action {
                    mode: RuleMode::Gate,
                    source: "real".into(),
                    lease: LeasePolicy::RunOnce,
                    timeout_sec: None,
                },
            },
        ],
    };
    assert!(
        cfg.resolve(&argv(&["op", "read", "x"])).is_none(),
        "a matched rule with a dangling source must fail closed, not downgrade"
    );
    assert_eq!(
        gate(cfg.resolve(&argv(&["op", "item", "get"])).unwrap()).rule,
        "broad"
    );
}

#[test]
fn add_rule_rejects_unknown_source_and_empty_match() {
    let mut cfg = Config::default();
    assert!(cfg
        .add_rule(Rule {
            name: "x".into(),
            match_: Match {
                command: Some("op".into()),
                ..Match::default()
            },
            action: Action {
                mode: RuleMode::Gate,
                source: "nope".into(),
                lease: LeasePolicy::RunOnce,
                timeout_sec: None,
            },
        })
        .is_err());
    cfg.add_source(Source {
        name: "s".into(),
        provider: "env-file".into(),
        account: None,
        path: Some("/x".into()),
        keys: Vec::new(),
        plain: PlainVars::new(),
    })
    .unwrap();
    assert!(
        cfg.add_rule(Rule {
            name: "empty".into(),
            match_: Match::default(),
            action: Action {
                mode: RuleMode::Gate,
                source: "s".into(),
                lease: LeasePolicy::RunOnce,
                timeout_sec: None,
            },
        })
        .is_err(),
        "an empty match must be rejected"
    );
}

#[test]
fn remove_source_refuses_while_referenced() {
    let mut cfg = Config::default();
    cfg.add_source(Source {
        name: "s".into(),
        provider: "env-file".into(),
        account: None,
        path: Some("/x".into()),
        keys: Vec::new(),
        plain: PlainVars::new(),
    })
    .unwrap();
    cfg.add_rule(Rule {
        name: "r".into(),
        match_: Match {
            command: Some("t".into()),
            ..Match::default()
        },
        action: Action {
            mode: RuleMode::Gate,
            source: "s".into(),
            lease: LeasePolicy::RunOnce,
            timeout_sec: None,
        },
    })
    .unwrap();
    assert!(cfg.remove_source("s").is_err(), "referenced source held");
    assert!(cfg.remove_rule("r"));
    assert!(cfg.remove_source("s").unwrap(), "now removable");
}

#[test]
fn legacy_migration_builds_sources_and_rules_and_keeps_op_default() {
    let legacy = LegacyStore {
        commands: vec![LegacyCommand {
            command: "gcloud".into(),
            provider: "env-file".into(),
            source: Some("/x/.env".into()),
            account: None,
        }],
    };
    let cfg = Config::from_legacy(&legacy);
    let g = gate(cfg.resolve(&argv(&["gcloud", "auth"])).unwrap());
    assert_eq!(g.provider, "env-file");
    assert_eq!(g.source_path.as_deref(), Some("/x/.env"));
    assert_eq!(g.lease, LeasePolicy::RunOnce);
    let op = gate(cfg.resolve(&argv(&["op", "read", "x"])).unwrap());
    assert_eq!(op.provider, "1password");
    assert_eq!(op.account, None);
}

#[test]
fn legacy_explicit_op_is_not_double_added() {
    let legacy = LegacyStore {
        commands: vec![LegacyCommand {
            command: "op".into(),
            provider: "1password".into(),
            source: None,
            account: Some("Rowm".into()),
        }],
    };
    let cfg = Config::from_legacy(&legacy);
    assert_eq!(cfg.rules.iter().filter(|r| r.name == "op").count(), 1);
    let op = gate(cfg.resolve(&argv(&["op", "read"])).unwrap());
    assert_eq!(op.account.as_deref(), Some("Rowm"));
    assert_eq!(op.lease, LeasePolicy::RunOnce);
}

#[test]
fn allow_rule_resolves_to_passthrough_and_layers_above_a_gate() {
    let mut cfg = Config::default();
    cfg.add_source(Source {
        name: "op".into(),
        provider: "1password".into(),
        account: None,
        path: None,
        keys: Vec::new(),
        plain: PlainVars::new(),
    })
    .unwrap();
    cfg.add_rule(Rule {
        name: "op-account-list".into(),
        match_: Match {
            command: Some("op".into()),
            subcommand: Some("account".into()),
            argv_contains: vec!["list".into()],
            ..Match::default()
        },
        action: Action {
            mode: RuleMode::Allow,
            source: String::new(),
            lease: LeasePolicy::RunOnce,
            timeout_sec: None,
        },
    })
    .unwrap();
    cfg.add_rule(Rule {
        name: "op".into(),
        match_: Match {
            command: Some("op".into()),
            ..Match::default()
        },
        action: Action {
            mode: RuleMode::Gate,
            source: "op".into(),
            lease: LeasePolicy::RunOnce,
            timeout_sec: None,
        },
    })
    .unwrap();

    assert_eq!(
        cfg.resolve(&argv(&["op", "account", "list"])),
        Some(Resolution::Allow {
            rule: "op-account-list".into()
        })
    );
    let g = gate(cfg.resolve(&argv(&["op", "read", "x"])).unwrap());
    assert_eq!(g.rule, "op");
    assert_eq!(g.provider, "1password");
    assert!(cfg.resolve(&argv(&["kubectl", "get"])).is_none());
    assert_eq!(cfg.rules[0].action.source, "");
    assert_eq!(cfg.rules[0].action.lease, LeasePolicy::RunOnce);
}

#[test]
fn add_rule_rejects_an_allow_with_a_source_or_lease_and_a_gate_without() {
    let mut cfg = Config::default();
    cfg.add_source(Source {
        name: "s".into(),
        provider: "env-file".into(),
        account: None,
        path: Some("/x".into()),
        keys: Vec::new(),
        plain: PlainVars::new(),
    })
    .unwrap();
    assert!(cfg
        .add_rule(Rule {
            name: "bad-allow".into(),
            match_: Match {
                command: Some("op".into()),
                ..Match::default()
            },
            action: Action {
                mode: RuleMode::Allow,
                source: "s".into(),
                lease: LeasePolicy::RunOnce,
                timeout_sec: None,
            },
        })
        .is_err());
    assert!(cfg
        .add_rule(Rule {
            name: "leasable-allow".into(),
            match_: Match {
                command: Some("op".into()),
                ..Match::default()
            },
            action: Action {
                mode: RuleMode::Allow,
                source: String::new(),
                lease: LeasePolicy::leasable(60),
                timeout_sec: None,
            },
        })
        .is_err());
    assert!(cfg
        .add_rule(Rule {
            name: "sourceless-gate".into(),
            match_: Match {
                command: Some("op".into()),
                ..Match::default()
            },
            action: Action {
                mode: RuleMode::Gate,
                source: String::new(),
                lease: LeasePolicy::RunOnce,
                timeout_sec: None,
            },
        })
        .is_err());
    assert!(cfg
        .add_rule(Rule {
            name: "good-allow".into(),
            match_: Match {
                command: Some("op".into()),
                subcommand: Some("account".into()),
                ..Match::default()
            },
            action: Action {
                mode: RuleMode::Allow,
                source: String::new(),
                lease: LeasePolicy::RunOnce,
                timeout_sec: None,
            },
        })
        .is_ok());
}

#[test]
fn a_config_is_loaded_from_what_is_there() {
    let mut own = Config::default();
    own.add_source(Source {
        name: "s".into(),
        provider: "env".into(),
        account: None,
        path: None,
        keys: Vec::new(),
        plain: PlainVars::new(),
    })
    .unwrap();
    let older = || {
        LegacyRead::Parsed(LegacyStore {
            commands: vec![LegacyCommand {
                command: "gh".into(),
                provider: "env-file".into(),
                source: Some("/x/.env".into()),
                account: None,
            }],
        })
    };
    assert_eq!(Config::load(ConfigRead::Parsed(own.clone()), older()).unwrap(), own);
    let migrated = Config::load(ConfigRead::Missing, older()).unwrap();
    assert!(migrated.gates_command("gh") && migrated.gates_command("op"));
    assert_eq!(Config::load(ConfigRead::Missing, LegacyRead::Missing).unwrap(), Config::default());
    assert_eq!(Config::load(ConfigRead::Failed("eof".into()), older()), Err("eof".into()));
    assert_eq!(
        Config::load(ConfigRead::Missing, LegacyRead::Failed("bad".into())),
        Err("bad".into())
    );
    assert_eq!(Config::path(Some(b"/h")).unwrap(), b"/h/config.json");
    assert_eq!(Config::legacy_path(Some(b"/h")).unwrap(), b"/h/commands.json");
    assert!(Config::path(None).is_none() && Config::legacy_path(None).is_none());
}

#[test]
fn modes_and_policies_have_short_names() {
    assert!(RuleMode::default().is_gate() && !RuleMode::default().is_allow());
    assert!(RuleMode::Allow.is_allow() && !RuleMode::Allow.is_gate());
    assert_eq!(lease_str(&LeasePolicy::RunOnce), "run-once");
    assert_eq!(lease_str(&LeasePolicy::leasable(900)), "leasable(900s)");
}
