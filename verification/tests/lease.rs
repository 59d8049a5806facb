//! Callers, grant keys and open windows.
use std::collections::HashMap;

use sigil::clock::Span;
use sigil::lease::notes::{
    doomed_index, note_unmeasured, unmeasured_notes, GuestFailure, UnmeasuredNote, UnmeasuredNotes,
};
use sigil::lease::procfs::parse_stat_fields;
use sigil::lease::store::{hex32, LeaseBinding, LeaseControl, LeaseStore, LEASE_ID_HEX_CHARS};
use sigil::lease::{
    grant_key, walk_ancestry, Ancestor, Caller, CodeIdentity, IdentityMeasure, ProcessStart,
    ProcessTable, ScopeKind,
};
use sigil::path::file_name;
use sigil::secrets::Token;

/// A synthetic process tree.
struct MapTable {
    parent: HashMap<i32, i32>,
    exe: HashMap<i32, Vec<u8>>,
    ident: HashMap<i32, CodeIdentity>,
}

impl MapTable {
    fn node(&mut self, pid: i32, ppid: i32, exe: &str, id: u8) {
        self.parent.insert(pid, ppid);
        self.exe.insert(pid, exe.as_bytes().to_vec());
        self.ident.insert(pid, CodeIdentity::content([id; 32]));
    }
}

impl ProcessTable for MapTable {
    fn parent(&self, pid: i32) -> Option<i32> {
        self.parent.get(&pid).copied()
    }

    fn resolve(&self, pid: i32) -> Option<(Vec<u8>, CodeIdentity)> {
        let exe = self.exe.get(&pid).cloned()?;
        let identity = self
            .ident
            .get(&pid)
            .copied()
            .unwrap_or_else(|| CodeIdentity::content([0u8; 32]));
        Some((exe, identity))
    }
}

const CMD: ScopeKind = ScopeKind::Command;

/// The config generation that these windows are bound under.
const GEN: u64 = 0;

/// The label that a grant is stamped with.
const COVERS: &str = "op read";

fn tree() -> MapTable {
    let mut t = MapTable {
        parent: HashMap::new(),
        exe: HashMap::new(),
        ident: HashMap::new(),
    };
    t.node(300, 200, "/opt/homebrew/bin/op", 3);
    t.node(200, 100, "/usr/local/bin/agent", 2);
    t.node(100, 1, "/bin/zsh", 1);
    t
}

/// The key of a command under a rule.
fn rule_key(caller: &Caller, rule: &str) -> [u8; 32] {
    grant_key(caller, CMD, "", rule)
}

fn token(s: &str) -> Token {
    Token::new(s.as_bytes().to_vec())
}

/// The binding of a window that caches nothing.
fn gate(account: &str, scope: &str) -> LeaseBinding {
    LeaseBinding::presence(account, scope, GEN)
}

/// Let this many milliseconds go by.
fn pass(millis: u64) {
    let start = std::time::Instant::now();
    while start.elapsed() < std::time::Duration::from_millis(millis) {}
}

/// The id of the window of a scope.
fn id_of(store: &mut LeaseStore, scope: &str) -> Option<String> {
    store.list().into_iter().find(|l| l.scope == scope).map(|l| l.lease_id)
}

#[test]
fn ancestry_walk_is_root_first_and_stops_at_init() {
    let caller = walk_ancestry(&tree(), 300);
    let names: Vec<_> = caller
        .chain
        .iter()
        .map(|a| String::from_utf8(file_name(&a.exe).unwrap()).unwrap())
        .collect();
    assert_eq!(names, vec!["zsh", "agent", "op"]);
    assert_eq!(caller.provenance(), "zsh \u{2192} agent \u{2192} op");
}

#[test]
fn ancestry_walk_terminates_on_a_cycle() {
    let mut t = MapTable {
        parent: HashMap::new(),
        exe: HashMap::new(),
        ident: HashMap::new(),
    };
    t.node(10, 20, "/a", 1);
    t.node(20, 10, "/b", 2);
    let caller = walk_ancestry(&t, 10);
    assert_eq!(caller.chain.len(), 2, "cycle must not loop forever");
}

#[test]
fn grant_key_is_stable_for_the_same_tree_scope_and_root() {
    let c = walk_ancestry(&tree(), 300);
    let a = grant_key(
        &c,
        CMD,
        "/Projects/rowm",
        "item get .env --vault Engineering",
    );
    let b = grant_key(
        &c,
        CMD,
        "/Projects/rowm",
        "item get .env --vault Engineering",
    );
    assert_eq!(a, b);
}

#[test]
fn grant_key_ignores_recycled_pids() {
    let mut t2 = MapTable {
        parent: HashMap::new(),
        exe: HashMap::new(),
        ident: HashMap::new(),
    };
    t2.node(999, 888, "/opt/homebrew/bin/op", 3);
    t2.node(888, 777, "/usr/local/bin/agent", 2);
    t2.node(777, 1, "/bin/zsh", 1);

    let a = grant_key(&walk_ancestry(&tree(), 300), CMD, "/p", "s");
    let b = grant_key(&walk_ancestry(&t2, 999), CMD, "/p", "s");
    assert_eq!(a, b, "grant key must not depend on pids");
}

#[test]
fn request_kinds_live_in_separate_scope_namespaces() {
    let c = walk_ancestry(&tree(), 300);
    let same = "ssh-sign GitHub SHA256:abc";
    assert_ne!(
        grant_key(&c, ScopeKind::Command, "", same),
        grant_key(&c, ScopeKind::SshSignature, "", same),
        "identical scope strings of different kinds must not collide"
    );
}

#[test]
fn one_rule_covers_any_command_it_matches() {
    let c = walk_ancestry(&tree(), 300);
    assert_eq!(
        rule_key(&c, "op"),
        rule_key(&c, "op"),
        "the argv is not in the key at all, so any two commands under one rule match"
    );
}

#[test]
fn cwd_no_longer_splits_a_lease() {
    let c = walk_ancestry(&tree(), 300);
    assert_eq!(rule_key(&c, "op"), grant_key(&c, CMD, "", "op"));
    assert_ne!(
        grant_key(&c, CMD, "/Projects/rowm", "op"),
        grant_key(&c, CMD, "/Projects/other", "op"),
        "the root still hashes in when a caller supplies one"
    );
}

#[test]
fn different_rules_do_not_share_a_grant_key() {
    let c = walk_ancestry(&tree(), 300);
    assert_ne!(
        rule_key(&c, "op"),
        rule_key(&c, "op-account-rowmhq-1password-eu"),
        "a lease on one rule must not cover another rule"
    );
}

#[test]
fn different_caller_chains_do_not_share_a_rule_lease() {
    let mine = walk_ancestry(&tree(), 300);
    let mut other = tree();
    other.node(300, 200, "/opt/homebrew/bin/op", 3);
    other.node(200, 100, "/usr/local/bin/some-other-tool", 9);
    assert_ne!(
        rule_key(&mine, "op"),
        rule_key(&walk_ancestry(&other, 300), "op"),
        "a different caller chain is a different grant"
    );

    let mut tampered = tree();
    tampered
        .ident
        .insert(200, CodeIdentity::content([0x42; 32]));
    assert_ne!(
        rule_key(&mine, "op"),
        rule_key(&walk_ancestry(&tampered, 300), "op"),
        "ancestor code identity must still matter"
    );
}

#[test]
fn grant_key_changes_with_root_scope_or_ancestry() {
    let c = walk_ancestry(&tree(), 300);
    let base = grant_key(&c, CMD, "/p", "s");
    assert_ne!(base, grant_key(&c, CMD, "/other", "s"), "root must matter");
    assert_ne!(base, grant_key(&c, CMD, "/p", "other"), "scope must matter");

    let mut t = tree();
    t.ident.insert(200, CodeIdentity::content([0x42; 32]));
    assert_ne!(
        base,
        grant_key(&walk_ancestry(&t, 300), CMD, "/p", "s"),
        "ancestor code identity must matter"
    );
}

#[test]
fn the_measures_are_domain_separated_in_the_grant_key() {
    let digest = [0x5a; 32];
    let mk = |identity: CodeIdentity| Caller {
        chain: vec![Ancestor {
            pid: 42,
            exe: "/opt/homebrew/bin/op".as_bytes().to_vec(),
            identity,
        }],
    };
    let with = |measure| CodeIdentity { measure, digest };
    let key = |i: CodeIdentity| grant_key(&mk(i), CMD, "", "op");
    let measures = [
        IdentityMeasure::Signed,
        IdentityMeasure::AdHoc,
        IdentityMeasure::Content,
        IdentityMeasure::Unmeasured,
    ];
    for (i, a) in measures.iter().enumerate() {
        for b in &measures[i + 1..] {
            assert_ne!(
                key(with(*a)),
                key(with(*b)),
                "{a:?} and {b:?} share 32 bytes but must not share a key"
            );
        }
    }
}

#[test]
fn a_cdhash_measurement_is_stable_and_distinguishing() {
    let a = CodeIdentity::from_cdhash(&[1u8; 20], false);
    assert_eq!(a, CodeIdentity::from_cdhash(&[1u8; 20], false));
    assert_eq!(a.measure, IdentityMeasure::Signed);
    assert_ne!(
        a.digest,
        CodeIdentity::from_cdhash(&[2u8; 20], false).digest
    );
    assert_ne!(
        a.digest,
        CodeIdentity::from_cdhash(&[1u8; 21], false).digest
    );
    let adhoc = CodeIdentity::from_cdhash(&[1u8; 20], true);
    assert_eq!(adhoc.digest, a.digest);
    assert_eq!(adhoc.measure, IdentityMeasure::AdHoc);
}

#[test]
fn an_unmeasured_ancestor_is_keyed_to_one_process_instance() {
    let start = ProcessStart {
        sec: 1_770_000_000,
        usec: 123_456,
    };
    let later = ProcessStart {
        usec: start.usec + 1,
        ..start
    };
    assert_eq!(
        CodeIdentity::unmeasured(100, start).digest,
        CodeIdentity::unmeasured(100, start).digest,
        "one process instance keeps one identity while it lives"
    );
    assert_ne!(
        CodeIdentity::unmeasured(100, start).digest,
        CodeIdentity::unmeasured(100, later).digest,
        "a recycled pid must not inherit the previous process's window"
    );
    assert_ne!(
        CodeIdentity::unmeasured(100, start).digest,
        CodeIdentity::unmeasured(101, start).digest,
        "and a different pid is a different instance"
    );
    assert_eq!(
        CodeIdentity::unmeasured(100, start).measure,
        IdentityMeasure::Unmeasured,
        "it keeps its own measure tag, never Signed and never AdHoc"
    );

    let ancestor = |identity| Ancestor {
        pid: 7,
        exe: "/bin/zsh".as_bytes().to_vec(),
        identity,
    };
    let measured = Caller {
        chain: vec![
            ancestor(CodeIdentity::from_cdhash(&[9u8; 20], false)),
            ancestor(CodeIdentity::from_cdhash(&[8u8; 20], true)),
        ],
    };
    assert!(measured.may_lease());
    assert!(measured.unmeasured().is_empty());

    let mut mixed = measured.clone();
    mixed
        .chain
        .push(ancestor(CodeIdentity::unmeasured(7, start)));
    assert!(mixed.may_lease(), "an unmeasured ancestor still leases");
    assert_eq!(
        mixed.unmeasured().len(),
        1,
        "but it is reported, so the state is visible rather than mysterious"
    );
    assert!(
        !Caller { chain: vec![] }.may_lease(),
        "a caller with no identity at all gets no window"
    );
}

#[test]
fn a_repeating_unmeasurable_executable_collapses_to_one_note() {
    let exe = "/nonexistent/sigil-r4f3/shim".as_bytes().to_vec();
    let mut notes = UnmeasuredNotes::new();
    for pid in 9_000..9_064 {
        note_unmeasured(&mut notes, UnmeasuredNote {
            pid,
            started: ProcessStart {
                sec: 1_770_000_000 + u64::try_from(pid).unwrap_or(0),
                usec: 1,
            },
            exe: exe.clone(),
            reason: GuestFailure::ImageNotVouched,
        }, |_: &UnmeasuredNote| true);
    }
    let mine: Vec<UnmeasuredNote> = unmeasured_notes(&notes)
        .into_iter()
        .filter(|n| n.exe == exe)
        .collect();
    assert_eq!(
        mine.len(),
        1,
        "64 runs of one unmeasurable executable must be one note, not 64"
    );
    assert_eq!(mine[0].pid, 9_063);

    note_unmeasured(&mut notes, UnmeasuredNote {
        pid: 9_100,
        started: ProcessStart {
            sec: 1_770_000_001,
            usec: 2,
        },
        exe: exe.clone(),
        reason: GuestFailure::NoLiveImage,
    }, |_: &UnmeasuredNote| true);
    assert_eq!(
        unmeasured_notes(&notes).iter().filter(|n| n.exe == exe).count(),
        2
    );
}

#[test]
fn a_path_written_another_way_is_the_same_problem() {
    let note = |pid: i32, exe: &str| UnmeasuredNote {
        pid,
        started: ProcessStart { sec: 1, usec: 0 },
        exe: exe.as_bytes().to_vec(),
        reason: GuestFailure::NoIdentity,
    };
    let live = |_: &UnmeasuredNote| true;
    let mut notes = UnmeasuredNotes::new();
    assert!(note_unmeasured(&mut notes, note(1, "/a/b"), live));
    for (pid, exe) in [(2, "/a//b"), (3, "//a/b/"), (4, "/a/./b"), (5, "/./a/b/.")] {
        assert!(!note_unmeasured(&mut notes, note(pid, exe), live), "{exe}");
    }
    let held = unmeasured_notes(&notes);
    assert_eq!(held.len(), 1);
    assert_eq!((held[0].pid, held[0].exe.as_slice()), (5, b"/./a/b/.".as_slice()));
    for (pid, exe) in [(6, "a/b"), (7, "./a/b"), (8, "/a/../b"), (9, "/a/b/c"), (10, "/b"), (11, "")] {
        assert!(note_unmeasured(&mut notes, note(pid, exe), live), "{exe}");
    }
    assert!(!note_unmeasured(&mut notes, note(12, ".//a/b/"), live));
    assert_eq!(note(1, "/a/b"), note(1, "/a//b"));
    assert_ne!(note(1, "/a/b"), note(1, "a/b"));
    assert_ne!(note(1, "/a/b"), note(2, "/a/b"));
}

#[test]
fn paths_are_compared_as_the_platform_compares_them() {
    let paths = [
        "", "/", "//", ".", "./", "..", "../", "/.", "/..", "a", "a/", "a//", "./a", ".//a", "/a", "//a",
        "/./a", "a/.", "a/./", "a/..", "a/b", "a//b", "a/./b", "a/../b", ".a", "..a", "a.", "/a/b/", "/a/.b",
    ];
    for x in paths {
        for y in paths {
            assert_eq!(
                sigil::path::same(x.as_bytes(), y.as_bytes()),
                std::path::Path::new(x) == std::path::Path::new(y),
                "{x:?} {y:?}"
            );
        }
    }
}

#[test]
fn a_full_registry_evicts_a_finished_process_before_a_live_one() {
    let note = |pid| UnmeasuredNote {
        pid,
        started: ProcessStart {
            sec: 1_770_000_000,
            usec: 0,
        },
        exe: format!("/opt/tools/t{pid}").into_bytes(),
        reason: GuestFailure::NoIdentity,
    };
    let notes: Vec<UnmeasuredNote> = (1..=4).map(note).collect();

    assert_eq!(doomed_index(&notes, |n: &UnmeasuredNote| n.pid != 3), 2);
    assert_eq!(doomed_index(&notes, |_: &UnmeasuredNote| true), 0);
    assert_eq!(doomed_index(&[], |_: &UnmeasuredNote| true), 0);
}

#[test]
fn proc_stat_fields_survive_a_comm_containing_parens_and_spaces() {
    let raw = "4242 (evil) proc) S 4241 4242 4242 0 -1 4194560 100 0 0 0 0 0 0 0 20 0 1 0 12345 0 0";
    let fields = parse_stat_fields(raw).expect("parses");
    assert_eq!(fields[0], "S", "field 3, state");
    assert_eq!(fields[1], "4241", "field 4, ppid -- not shifted by the fake `)` in comm");
}

#[test]
fn lease_grant_lookup_and_scope_isolation() {
    let mut store = LeaseStore::new();
    let gk = rule_key(&walk_ancestry(&tree(), 300), "op");
    let b = gate("Rowm", "op");
    store.grant(gk, &b, COVERS, token("tok"), Span::from_secs(60));

    assert_eq!(store.active(), 1);
    let t = store.token_for(&gk, &b).unwrap();
    assert_eq!(t.as_slice(), b"tok");
    assert!(store.token_for(&gk, &gate("Rowm", "op-eu")).is_none());
    assert!(store.token_for(&gk, &gate("Other", "op")).is_none());
    assert!(store.token_for(&[0u8; 32], &b).is_none());
}

#[test]
fn a_reseal_of_the_source_misses_the_cached_lease() {
    let mut store = LeaseStore::new();
    let gk = rule_key(&walk_ancestry(&tree(), 300), "deploy");
    let sealed_then = LeaseBinding::cached("prod-env", "deploy", "E-original", GEN);
    let sealed_now = LeaseBinding::cached("prod-env", "deploy", "E-after-reseal", GEN);
    store.grant(
        gk,
        &sealed_then,
        COVERS,
        token("TOKEN=old"),
        Span::from_secs(60),
    );

    assert!(store.token_for(&gk, &sealed_then).is_some());
    assert!(
        store.token_for(&gk, &sealed_now).is_none(),
        "a re-sealed source must not hit the old cache"
    );
    assert!(store.token_for(&gk, &gate("prod-env", "deploy")).is_none());
}

#[test]
fn coverage_is_carried_for_display_and_never_joins_the_lookup() {
    let mut store = LeaseStore::new();
    let gk = rule_key(&walk_ancestry(&tree(), 300), "op");
    let b = gate("Rowm", "op");
    store.grant(gk, &b, COVERS, token("tok"), Span::from_secs(60));
    assert_eq!(store.list()[0].covers, COVERS);
    assert_eq!(store.list()[0].scope, "op", "scope stays the rule name");
    assert!(store.token_for(&gk, &b).is_some());

    store.grant(
        gk,
        &b,
        "op with --account rowm",
        token("tok2"),
        Span::from_secs(60),
    );
    assert_eq!(store.active(), 1);
    assert_eq!(store.list()[0].covers, "op with --account rowm");
}

#[test]
fn lease_expires_and_is_purged() {
    let mut store = LeaseStore::new();
    let gk = [7u8; 32];
    let b = gate("Rowm", "s");
    store.grant(gk, &b, COVERS, token("tok"), Span::from_millis(15));
    assert!(store.token_for(&gk, &b).is_some());
    pass(30);
    assert!(store.token_for(&gk, &b).is_none());
    assert_eq!(store.active(), 0);
}

#[test]
fn an_expired_cached_lease_stops_serving_its_values() {
    let mut store = LeaseStore::new();
    let gk = [9u8; 32];
    let b = LeaseBinding::cached("prod-env", "deploy", "E1", GEN);
    store.grant(
        gk,
        &b,
        COVERS,
        token("TOKEN=live"),
        Span::from_millis(15),
    );
    assert_eq!(store.token_for(&gk, &b).unwrap().as_slice(), b"TOKEN=live");
    pass(30);
    assert!(store.token_for(&gk, &b).is_none(), "the window lapsed");
    assert_eq!(store.active(), 0, "and the values were purged with it");
}

#[test]
fn a_lease_id_names_one_window_and_survives_a_refresh() {
    assert_eq!(LEASE_ID_HEX_CHARS, 32);

    let mut store = LeaseStore::new();
    let gk = [0xa1; 32];
    let b = gate("Rowm", "op");

    store.grant(gk, &b, COVERS, token("t"), Span::from_secs(60));
    let first = store.list()[0].lease_id.clone();
    assert_eq!(first.len(), LEASE_ID_HEX_CHARS);
    assert!(first
        .chars()
        .all(|c| c.is_ascii_hexdigit() && !c.is_uppercase()));

    store.grant(gk, &b, COVERS, token("t2"), Span::from_secs(600));
    assert_eq!(store.active(), 1, "a refresh does not open a second window");
    assert_eq!(store.list()[0].lease_id, first, "same window, same id");

    assert!(store.revoke_id(&first));
    store.grant(gk, &b, COVERS, token("t3"), Span::from_secs(60));
    assert_eq!(store.list()[0].grant_hex, hex32(&gk), "the key recurs");
    assert_ne!(store.list()[0].lease_id, first, "the id does not");
}

#[test]
fn windows_at_given_readings_are_shown_with_their_exact_times() {
    let mut store = LeaseStore::new();
    let (a, b) = (gate("Rowm", "op"), gate("Rowm", "gh"));
    let nanos = |n: u128| Span { nanos: n };
    store.grant_at(10, [1; 16], [7; 32], &a, COVERS, token("a"), nanos(100));
    store.grant_at(20, [2; 16], [7; 32], &b, COVERS, token("b"), nanos(100));
    store.grant_at(30, [3; 16], [7; 32], &a, "wider", token("c"), nanos(50));

    let shown = store.list_at(35);
    assert_eq!(shown.len(), 2, "one window for each key and binding");
    let rows: Vec<(&str, u128, u128)> =
        shown.iter().map(|l| (l.scope.as_str(), l.age.nanos, l.remaining.nanos)).collect();
    assert_eq!(rows, vec![("gh", 15, 85), ("op", 25, 45)], "the newest first");
    assert_eq!(shown[1].lease_id, "01".repeat(16), "a refresh keeps the id");
    assert_eq!(shown[0].lease_id, "02".repeat(16));
    assert_eq!(shown[1].covers, "wider");

    assert_eq!(store.token_for_at(79, &[7; 32], &a).unwrap().as_slice(), b"c");
    assert!(store.token_for_at(80, &[7; 32], &a).is_none(), "over at this very reading");
    assert_eq!(store.active_at(119), 1);
    assert!(store.revoke_id_at(119, &"02".repeat(16)));
    assert_eq!(store.active_at(119), 0);
}

#[test]
fn a_live_window_keeps_its_id_and_a_dead_one_never_lends_it_out() {
    let mut store = LeaseStore::new();
    let gk = [0xf1; 32];
    let b = gate("Rowm", "op");
    store.grant(gk, &b, COVERS, token("t"), Span::from_secs(60));
    let watched = store.list()[0].lease_id.clone();

    store.grant(
        [0xf2; 32],
        &gate("A", "other"),
        COVERS,
        token("a"),
        Span::from_secs(60),
    );
    store.grant(
        [0xf3; 32],
        &gate("B", "doomed"),
        COVERS,
        token("b"),
        Span::from_millis(10),
    );
    let other = id_of(&mut store, "other").expect("filed");
    assert!(store.revoke_id(&other));
    store.revoke_scope("nothing-matches-this");
    pass(30);
    for _ in 0..5 {
        assert_eq!(
            id_of(&mut store, "op").as_deref(),
            Some(watched.as_str()),
            "a live window must appear under one unchanging id"
        );
    }
    store.grant(gk, &b, COVERS, token("t2"), Span::from_secs(600));
    assert_eq!(id_of(&mut store, "op").as_deref(), Some(watched.as_str()));

    assert!(store.revoke_id(&watched));
    assert_eq!(id_of(&mut store, "op"), None);

    let mut seen = std::collections::HashSet::new();
    seen.insert(watched);
    seen.insert(other);
    for _ in 0..200 {
        store.grant(gk, &b, COVERS, token("t"), Span::from_secs(60));
        let id = store.list()[0].lease_id.clone();
        assert!(store.revoke_id(&id));
        assert!(seen.insert(id), "a lease id was reused for a later window");
    }
}

#[test]
fn one_grant_key_can_hold_several_windows_and_ids_still_separate_them() {
    let mut store = LeaseStore::new();
    let gk = [0xd1; 32];
    store.grant(
        gk,
        &LeaseBinding::cached("A", "rule", "src-1", GEN),
        COVERS,
        token("a"),
        Span::from_secs(60),
    );
    store.grant(
        gk,
        &LeaseBinding::cached("B", "rule", "src-2", GEN),
        COVERS,
        token("b"),
        Span::from_secs(60),
    );
    let rows = store.list();
    assert_eq!(rows.len(), 2, "one key, two windows");
    assert_eq!(rows[0].grant_hex, rows[1].grant_hex, "sharing the key");
    assert_ne!(rows[0].lease_id, rows[1].lease_id, "but not the id");

    let doomed = rows[0].lease_id.clone();
    let spared = rows[1].lease_id.clone();
    assert!(store.revoke_id(&doomed));
    let left = store.list();
    assert_eq!(left.len(), 1);
    assert_eq!(left[0].lease_id, spared);
}

#[test]
fn revoke_by_id_is_exact_and_refuses_anything_prefix_shaped() {
    let mut store = LeaseStore::new();
    store.grant(
        [0xb1; 32],
        &gate("A", "rule-a"),
        COVERS,
        token("a"),
        Span::from_secs(60),
    );
    store.grant(
        [0xb2; 32],
        &gate("B", "rule-b"),
        COVERS,
        token("b"),
        Span::from_secs(60),
    );
    let rows = store.list();
    let one = rows.iter().find(|l| l.scope == "rule-a").unwrap().clone();
    let two = rows.iter().find(|l| l.scope == "rule-b").unwrap().clone();

    assert!(!store.revoke_id(""));
    assert_eq!(store.active(), 2, "an empty id is not a wildcard");

    assert!(
        !store.revoke_id(&one.lease_id[..8]),
        "a prefix is not an id"
    );
    assert!(!store.revoke_id(&one.grant_hex), "a grant key is not an id");
    assert!(!store.revoke_id(&format!("{}0", one.lease_id)), "too long");
    assert!(!store.revoke_id(&"z".repeat(32)), "not hex");
    assert!(!store.revoke_id(&"f".repeat(32)), "an id nobody minted");
    assert_eq!(store.active(), 2, "no near miss killed anything");

    assert!(store.revoke_id(&one.lease_id));
    assert_eq!(store.active(), 1);
    assert!(
        !store.revoke_id(&one.lease_id),
        "idempotent: revoking a dead window is a clean false, never an error"
    );
    assert_eq!(store.list()[0].lease_id, two.lease_id, "the other survives");
}

#[test]
fn revoke_by_id_reports_false_for_a_window_that_already_lapsed() {
    let mut store = LeaseStore::new();
    store.grant(
        [0xc1; 32],
        &gate("Rowm", "op"),
        COVERS,
        token("t"),
        Span::from_millis(15),
    );
    let row = store.list()[0].clone();
    pass(30);
    assert!(!store.revoke_id(&row.lease_id));
    assert!(!store.revoke_id(&"e".repeat(32)));
}

#[test]
fn the_lease_control_handle_can_only_list_and_revoke_by_id() {
    let mut store = LeaseStore::new();
    store.grant(
        [0xe1; 32],
        &gate("Rowm", "op"),
        COVERS,
        token("t"),
        Span::from_secs(60),
    );
    let control: &mut dyn LeaseControl = &mut store;
    assert_eq!(control.list().len(), 1);
    let id = control.list()[0].lease_id.clone();
    assert!(control.revoke_id(&id));
    assert_eq!(control.list().len(), 0);
    assert_eq!(store.active(), 0);
}

#[test]
fn clear_zeroizes_all_leases() {
    let mut store = LeaseStore::new();
    store.grant(
        [1u8; 32],
        &gate("A", "s"),
        COVERS,
        token("a"),
        Span::from_secs(60),
    );
    store.grant(
        [2u8; 32],
        &gate("B", "s"),
        COVERS,
        token("b"),
        Span::from_secs(60),
    );
    assert_eq!(store.active(), 2);
    assert_eq!(store.clear(), 2);
    assert_eq!(store.active(), 0);
}

#[test]
fn revoke_by_grant_prefix() {
    let mut store = LeaseStore::new();
    let gk = [0xabu8; 32];
    let b = gate("A", "s");
    store.grant(gk, &b, COVERS, token("a"), Span::from_secs(60));
    let prefix = &hex32(&gk)[..8];
    assert_eq!(store.revoke(prefix), 1);
    assert_eq!(store.active(), 0);
    assert!(
        store.token_for(&gk, &b).is_none(),
        "revoke drops the values"
    );
}

#[test]
fn revoke_scope_kills_every_lease_on_one_rule() {
    let mut store = LeaseStore::new();
    let doomed = LeaseBinding::cached("prod-env", "deploy", "E1", GEN);
    store.grant(
        [1u8; 32],
        &doomed,
        COVERS,
        token("TOKEN=a"),
        Span::from_secs(60),
    );
    store.grant(
        [2u8; 32],
        &doomed,
        COVERS,
        token("TOKEN=b"),
        Span::from_secs(60),
    );
    store.grant(
        [3u8; 32],
        &gate("", "op"),
        COVERS,
        token(""),
        Span::from_secs(60),
    );

    assert_eq!(store.revoke_scope("deploy"), 2);
    assert_eq!(store.active(), 1, "the unrelated rule keeps its lease");
    assert!(store.token_for(&[1u8; 32], &doomed).is_none());
    assert_eq!(store.revoke_scope("deploy"), 0, "idempotent");
}

#[test]
fn lease_refresh_keeps_one_entry() {
    let mut store = LeaseStore::new();
    let gk = [3u8; 32];
    let b = gate("A", "s");
    store.grant(gk, &b, COVERS, token("a"), Span::from_secs(1));
    store.grant(gk, &b, COVERS, token("b"), Span::from_secs(60));
    assert_eq!(store.active(), 1);
    assert_eq!(store.token_for(&gk, &b).unwrap().as_slice(), b"b");
}
