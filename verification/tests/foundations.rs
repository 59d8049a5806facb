//! Exact values: digests, texts, times and labels.
use sigil::bytes::{from_hex, hex};
use sigil::clock::Span;
use sigil::lease::notes::{live_unmeasured_notes, note_unmeasured, unmeasured_line, GuestFailure, UnmeasuredNote, UnmeasuredNotes};
use sigil::lease::procfs::{
    boot_time, parse_stat_fields, stat_parent, stat_start_time, SysProcessTable,
};
use sigil::lease::store::{hex16, hex32, is_lease_id, LeaseBinding, LeaseStore};
use sigil::lease::{
    grant_key, Ancestor, AncestryWalk, Caller, CodeIdentity, IdentityMeasure, ProcessStart,
    ScopeKind,
};
use sigil::path::{file_name, join};
use sigil::policy::{sanitize_label, LeasePolicy};
use sigil::secrets::Token;
use sigil::shelf::Shelf;
use sigil::text;

fn ancestor(pid: i32, exe: &[u8], identity: CodeIdentity) -> Ancestor {
    Ancestor { pid, exe: exe.to_vec(), identity }
}

#[test]
fn a_grant_key_is_the_digest_of_its_record() {
    let caller = Caller {
        chain: vec![
            ancestor(5, b"/bin/zsh", CodeIdentity::content([1; 32])),
            ancestor(
                9,
                b"/bin/op",
                CodeIdentity { measure: IdentityMeasure::Unmeasured, digest: [2; 32] },
            ),
        ],
    };
    assert_eq!(
        hex32(&grant_key(&caller, ScopeKind::Command, "/root", "op")),
        "de239ad819d4b338869e5504cbcc42fbcc3871384b6e0a65863adedaf44f4c48"
    );
    assert_eq!(caller.provenance(), "zsh \u{2192} op");
    assert!(caller.may_lease());
    assert_eq!(caller.unmeasured().len(), 1);
    assert!(!Caller { chain: Vec::new() }.may_lease());
}

#[test]
fn identities_are_folded_from_what_was_measured() {
    let image = CodeIdentity::of_image(b"hello");
    assert_eq!(image.measure, IdentityMeasure::Content);
    assert_eq!(
        hex32(&image.digest),
        "324dcf027dd4a30a932c441f365a25e86b173defa4b8e58948253471b81b72cf"
    );
    let signed = CodeIdentity::from_cdhash(b"\x01\x02", false);
    assert_eq!(signed.measure, IdentityMeasure::Signed);
    assert_eq!(
        hex32(&signed.digest),
        "40869d730d3921e47c72dd02cc661ec45634395c83c723a5f677cbec37857cce"
    );
    let adhoc = CodeIdentity::from_cdhash(b"\x01\x02", true);
    assert_eq!((adhoc.measure, adhoc.digest), (IdentityMeasure::AdHoc, signed.digest));
    let none = CodeIdentity::unmeasured(7, ProcessStart { sec: 100, usec: 5 });
    assert_eq!(
        hex32(&none.digest),
        "3506b9e39679236a86c247ddc656a6d4815010f19c2c02ab81f59a24fc1fee63"
    );
}

#[test]
fn an_ancestor_without_a_name_is_shown_by_its_pid() {
    let caller = Caller { chain: vec![ancestor(42, b"/", CodeIdentity::content([0; 32]))] };
    assert_eq!(caller.provenance(), "42");
    let odd = Caller { chain: vec![ancestor(42, b"/x/\xfe", CodeIdentity::content([0; 32]))] };
    assert_eq!(odd.provenance(), "\u{fffd}");
}

#[test]
fn a_walk_asks_pid_by_pid() {
    let mut w = AncestryWalk::new(10);
    assert_eq!(w.asks(), Some(10));
    w.told(Some((b"/bin/op".to_vec(), CodeIdentity::content([1; 32]))), Some(9));
    assert_eq!(w.asks(), Some(9));
    w.told(None, Some(8));
    assert_eq!(w.asks(), None, "an ancestor that cannot be read ends the walk");
    let chain = w.caller().chain;
    assert_eq!(chain.len(), 1);
    assert_eq!(chain[0].pid, 10);
    assert_eq!(AncestryWalk::new(1).asks(), None);
    assert_eq!(AncestryWalk::new(-1).asks(), None);
}

#[test]
fn hex_reads_back_what_it_wrote() {
    assert_eq!(hex(b"\x00\x9f\xff"), "009fff");
    assert_eq!(from_hex("009fFF").unwrap(), b"\x00\x9f\xff");
    assert!(from_hex("0").is_none());
    assert!(from_hex("0g").is_none());
    assert_eq!(hex16(&[0xab; 16]), "ab".repeat(16));
}

#[test]
fn path_components_follow_the_platform() {
    assert_eq!(file_name(b"/usr/bin/op").unwrap(), b"op");
    assert_eq!(file_name(b"/usr/bin/op/").unwrap(), b"op");
    assert_eq!(file_name(b"/usr/bin/op/.").unwrap(), b"op");
    assert!(file_name(b"/usr/..").is_none());
    assert!(file_name(b"/").is_none());
    assert!(file_name(b"").is_none());
    assert_eq!(join(b"/a", "b"), b"/a/b");
    assert_eq!(join(b"/a/", "b"), b"/a/b");
    assert_eq!(join(b"", "b"), b"b");
}

#[test]
fn a_stat_line_gives_the_parent_and_the_start() {
    let line = "42 (a) b (c)) S 7 1 1 0 -1 4194304 1 2 3 4 5 6 7 8 20 0 1 0 12345 1 1";
    let fields = parse_stat_fields(line).unwrap();
    assert_eq!(fields[0], "S");
    assert_eq!(stat_parent(&fields), Some(7));
    assert_eq!(
        stat_start_time(&fields, 100, 1_700_000_000),
        Some(ProcessStart { sec: 1_700_000_123, usec: 450_000 })
    );
    assert_eq!(stat_start_time(&fields, 100, u64::MAX), None);
    assert!(parse_stat_fields("no parenthesis").is_none());
    let orphan: Vec<String> = vec!["S".into(), "0".into()];
    assert_eq!(stat_parent(&orphan), None);
    assert_eq!(stat_start_time(&orphan, 100, 1), None);
    assert_eq!(boot_time("cpu 1 2\nbtime 1700000000\nprocesses 3\n"), Some(1_700_000_000));
    assert_eq!(boot_time("cpu 1 2\nxbtime 17\n"), None);
    assert_eq!(boot_time("btime x\nbtime 17\n"), None);
}

#[test]
fn a_process_that_cannot_be_measured_stays_in_the_chain() {
    let line = "42 (x) S 7 1 1 0 -1 0 1 2 3 4 5 6 7 8 20 0 1 0 250 1 1";
    assert_eq!(SysProcessTable::parent(line), Some(7));
    assert_eq!(SysProcessTable::parent("nothing"), None);
    let at = SysProcessTable::start_time(line, 100, "btime 1000\n").unwrap();
    assert_eq!(at, ProcessStart { sec: 1002, usec: 500_000 });
    assert_eq!(SysProcessTable::start_time(line, 100, "cpu 1\n"), None);
    let image = (b"/bin/op".to_vec(), CodeIdentity::content([4; 32]));
    let taken = SysProcessTable::resolve(42, Ok(image.clone()), None, None);
    assert_eq!(taken, (Some(image), None));
    let why = GuestFailure::NoLiveImage;
    let (kept, note) = SysProcessTable::resolve(42, Err(why), Some(at), Some(b"/bin/op".to_vec()));
    assert_eq!(kept, Some((b"/bin/op".to_vec(), CodeIdentity::unmeasured(42, at))));
    assert_eq!(note.unwrap().reason, why);
    assert_eq!(SysProcessTable::resolve(42, Err(why), None, Some(Vec::new())), (None, None));
    assert_eq!(SysProcessTable::resolve(42, Err(why), Some(at), None), (None, None));
}

#[test]
fn an_unmeasurable_ancestor_is_logged_in_words() {
    let note = UnmeasuredNote {
        pid: 42,
        started: ProcessStart { sec: 1, usec: 2 },
        exe: b"/opt/x/tool".to_vec(),
        reason: GuestFailure::NoIdentity,
    };
    assert_eq!(note.name(), "tool");
    assert_eq!(
        unmeasured_line(17, &note, "it carries no identity"),
        "sigil daemon: [17] caller ancestor not measurable \u{b7} /opt/x/tool \u{b7} pid 42 \u{b7} it carries no identity \u{b7} leases under it are keyed to this process, not to its code"
    );
    let mut notes = UnmeasuredNotes::new();
    assert!(note_unmeasured(&mut notes, note.clone(), |_| true));
    assert!(!note_unmeasured(&mut notes, note.clone(), |_| true));
    assert_eq!(live_unmeasured_notes(&notes, &[Some(note.started)]), vec![note]);
    assert!(live_unmeasured_notes(&notes, &[Some(ProcessStart { sec: 9, usec: 2 })]).is_empty());
    assert!(live_unmeasured_notes(&notes, &[None]).is_empty());
}

#[test]
fn labels_are_reduced_to_what_a_surface_can_show() {
    assert_eq!(sanitize_label("  a\t b\u{202e}\u{202e}c  ", 72), "a b\u{fffd}c");
    assert_eq!(sanitize_label("abcdef", 4), "abc\u{2026}");
    assert_eq!(sanitize_label("ab cdef", 4), "ab\u{2026}");
    let p = LeasePolicy::leasable(900).with_covers("op\u{7}");
    assert_eq!(p.covers(), "op\u{fffd}");
    assert_eq!(p.clamp_secs(60), Some(60));
    assert_eq!(p.clamp_secs(6000), Some(900));
    assert_eq!(LeasePolicy::RunOnce.clamp_secs(60), None);
    assert_eq!(LeasePolicy::RunOnce.with_covers("x").covers(), "");
    assert!(p.is_leasable() && !p.is_run_once());
}

#[test]
fn numbers_are_read_as_std_reads_them() {
    assert_eq!(text::parse_u64("18446744073709551615"), Some(u64::MAX));
    assert_eq!(text::parse_u64("18446744073709551616"), None);
    assert_eq!(text::parse_u64("+7"), Some(7));
    assert_eq!(text::parse_u64("-7"), None);
    assert_eq!(text::parse_u64(""), None);
    assert_eq!(text::parse_u64("+"), None);
    assert_eq!(text::decimal_text(0), "0");
    assert_eq!(text::decimal_text(u128::MAX), "340282366920938463463374607431768211455");
    assert_eq!(text::signed_decimal_text(i32::MIN), "-2147483648");
    assert_eq!(text::trim(" \u{3000}a b\n"), "a b");
    assert!(text::is_before("a", "ab") && !text::is_before("b", "ab"));
}

#[test]
fn fresh_windows_get_fresh_ids() {
    let mut store = LeaseStore::new();
    for i in 0..20u8 {
        let b = LeaseBinding::presence("", "r", 0);
        store.grant([i; 32], &b, "", Token::new(Vec::new()), Span::from_secs(60));
    }
    let mut ids: Vec<String> = store.list().into_iter().map(|l| l.lease_id).collect();
    assert!(ids.iter().all(|id| is_lease_id(id)));
    ids.sort();
    ids.dedup();
    assert_eq!(ids.len(), 20);
    assert!(!is_lease_id("ab"));
    assert!(!is_lease_id(&"g0".repeat(16)));
}

#[test]
fn leases_are_listed_newest_first_with_what_is_left() {
    let mut store = LeaseStore::new();
    let b = |s: &str| LeaseBinding::cached("acct", s, "E", 3);
    store.grant_at(1_000, [1; 16], [1; 32], &b("old"), "c", Token::new(b"v".to_vec()), Span::from_millis(5));
    store.grant_at(2_000, [2; 16], [2; 32], &b("new"), "d", Token::new(b"w".to_vec()), Span::from_secs(1));
    let l = store.list_at(3_000);
    assert_eq!(l[0].scope, "new");
    assert_eq!(l[1].scope, "old");
    assert_eq!(l[1].remaining, Span { nanos: 4_998_000 });
    assert_eq!(l[1].lease_id, "01".repeat(16));
    assert_eq!(store.token_for_at(3_000, &[1; 32], &b("old")).unwrap().as_slice(), b"v");
    assert!(store.token_for_at(5_001_000, &[1; 32], &b("old")).is_none(), "the end is excluded");
    assert_eq!(Span::from_secs(90).as_secs(), 90);
    assert_eq!(Span::from_millis(1_999).as_secs(), 1);
}

#[test]
fn a_shelf_keeps_each_label_once() {
    let mut s: Shelf<u8> = Shelf::from_entries(vec![("a".into(), 1), ("b".into(), 2), ("a".into(), 3)]);
    assert_eq!(s.len(), 2);
    assert_eq!(s.get("a"), Some(&3));
    s.put("b", 4);
    s.remove("a");
    assert_eq!(s.get("a"), None);
    assert_eq!(s.into_entries(), vec![("b".to_string(), 4)]);
}

#[test]
fn a_token_duplicates_its_bytes() {
    let t = Token::new(b"secret".to_vec());
    let u = t.duplicate();
    drop(t);
    assert_eq!(u.as_slice(), b"secret");
}
