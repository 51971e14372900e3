use bigpack::dedup::FileEntry;
use bigpack::mover::WorksMovePlan;
use bigpack::text::{ext_of, str_contains, with_ext};
use bigpack::{
    bucket_dir_name, collect_merge_pairs, count_remaining_with_ext, find_duplicate_destinations,
    first_char_rules_find, get_remove_media_file_rules, get_remove_media_rule_mpg_fill_wmv,
    get_remove_media_rule_oraja, get_remove_media_rule_wav_fill_flac, pair_works_with_same_name,
    plan_merge_split_folders, plan_move_out, plan_move_works, plan_split_folders, plan_undo_split,
    select_media_rule, workdir_compute_removals,
};

fn s(x: &str) -> String {
    x.to_string()
}

fn entry(name: &str, size: u64) -> FileEntry {
    FileEntry { name: s(name), size }
}

fn pair(a: &str, b: &str) -> (String, String) {
    (s(a), s(b))
}

#[test]
fn test_first_char_rules_find() {
    assert_eq!(first_char_rules_find("123abc"), "0-9");
    assert_eq!(first_char_rules_find("ABC"), "ABCD");
    assert_eq!(first_char_rules_find("EFG"), "EFGHIJK");
    assert_eq!(first_char_rules_find("LMN"), "LMNOPQ");
    assert_eq!(first_char_rules_find("RST"), "RST");
    assert_eq!(first_char_rules_find("UVW"), "UVWXYZ");
    assert_eq!(first_char_rules_find("あいう"), "平假");
    assert_eq!(first_char_rules_find("アイウ"), "片假");
    assert_eq!(first_char_rules_find("中文"), "字");
    assert_eq!(first_char_rules_find(""), "Uncategorized");
}

#[test]
fn test_get_remove_media_rules() {
    let oraja = get_remove_media_rule_oraja();
    assert_eq!(oraja.len(), 5);

    let wav_fill_flac = get_remove_media_rule_wav_fill_flac();
    assert_eq!(wav_fill_flac.len(), 1);

    let mpg_fill_wmv = get_remove_media_rule_mpg_fill_wmv();
    assert_eq!(mpg_fill_wmv.len(), 1);

    let all_rules = get_remove_media_file_rules();
    assert_eq!(all_rules.len(), 3);
}

#[test]
fn classify_digit_leading_names() {
    assert_eq!(first_char_rules_find("0"), "0-9");
    assert_eq!(first_char_rules_find("9 to 5"), "0-9");
    assert_eq!(first_char_rules_find(""), "Uncategorized");
}

#[test]
fn classify_precedence_and_catch_all() {
    // Lowercase letters resolve through the uppercased ranges, never to "+".
    assert_eq!(first_char_rules_find("abc"), "ABCD");
    assert_eq!(first_char_rules_find("k"), "EFGHIJK");
    assert_eq!(first_char_rules_find("q"), "LMNOPQ");
    assert_eq!(first_char_rules_find("t"), "RST");
    assert_eq!(first_char_rules_find("zzz"), "UVWXYZ");
    // Deterministic: the same input always yields the same label.
    assert_eq!(first_char_rules_find("abc"), first_char_rules_find("abc"));
    // Other non-empty names fall to the catch-all.
    assert_eq!(first_char_rules_find("!bang"), "+");
    assert_eq!(first_char_rules_find("한글"), "+");
}

#[test]
fn dedup_oraja_schedules_avi() {
    let files = vec![entry("track.mp4", 10), entry("track.avi", 5)];
    let rule = get_remove_media_rule_oraja();
    let pairs = workdir_compute_removals(&files, &rule);
    assert_eq!(pairs, vec![pair("track.mp4", "track.avi")]);
}

#[test]
fn dedup_zero_length_superior_deletes_nothing() {
    let files = vec![entry("track.mp4", 0), entry("track.avi", 5)];
    let rule = get_remove_media_rule_oraja();
    let pairs = workdir_compute_removals(&files, &rule);
    assert_eq!(pairs, Vec::new());
}

#[test]
fn dedup_never_schedules_twice() {
    // a.wmv is inferior to both a.mp4 (first rule) and a.mpg (last rule):
    // it is scheduled exactly once, by the earlier rule.
    let files = vec![entry("a.mp4", 10), entry("a.mpg", 10), entry("a.wmv", 10)];
    let rule = get_remove_media_rule_oraja();
    let pairs = workdir_compute_removals(&files, &rule);
    assert_eq!(pairs, vec![pair("a.mp4", "a.wmv"), pair("a.mp4", "a.mpg")]);
    for i in 0..pairs.len() {
        for j in (i + 1)..pairs.len() {
            assert_ne!(pairs[i].1, pairs[j].1);
        }
    }
}

#[test]
fn dedup_uppercase_extension_matches() {
    let files = vec![entry("TRACK.MP4", 10), entry("TRACK.avi", 5)];
    let rule = get_remove_media_rule_oraja();
    let pairs = workdir_compute_removals(&files, &rule);
    assert_eq!(pairs, vec![pair("TRACK.MP4", "TRACK.avi")]);
}

#[test]
fn dedup_wav_fill_flac_preset() {
    let files = vec![entry("bgm.wav", 100), entry("bgm.flac", 80)];
    let rule = get_remove_media_rule_wav_fill_flac();
    let pairs = workdir_compute_removals(&files, &rule);
    assert_eq!(pairs, vec![pair("bgm.wav", "bgm.flac")]);
}

#[test]
fn leftover_mp4_count() {
    let files = vec![entry("a.mp4", 1), entry("b.MP4", 1), entry("c.avi", 1)];
    let removed = vec![s("c.avi")];
    assert_eq!(count_remaining_with_ext(&files, &removed, "mp4"), 2);
    let removed2 = vec![s("b.MP4"), s("c.avi")];
    assert_eq!(count_remaining_with_ext(&files, &removed2, "mp4"), 1);
}

#[test]
fn merge_pairs_for_two_buckets() {
    let names = vec![s("Foo"), s("Foo [ABCD]"), s("Foo [RST]")];
    let pairs = collect_merge_pairs(&names);
    assert_eq!(pairs, vec![pair("Foo [ABCD]", "Foo"), pair("Foo [RST]", "Foo")]);
}

#[test]
fn merge_pairs_skip_ambiguous_grouping() {
    // A third "Foo [" sibling makes the grouping ambiguous (> 2 matches):
    // every candidate of that base is skipped with a warning, none guessed.
    let names = vec![s("Foo"), s("Foo [ABCD]"), s("Foo [RST]"), s("Foo [UVWXYZ]")];
    let pairs = collect_merge_pairs(&names);
    assert_eq!(pairs, Vec::new());
}

#[test]
fn merge_pairs_need_existing_base() {
    let names = vec![s("Song [Artist]"), s("Song")];
    let pairs = collect_merge_pairs(&names);
    assert_eq!(pairs, vec![pair("Song [Artist]", "Song")]);
    let orphan = vec![s("Song [Artist]")];
    assert_eq!(collect_merge_pairs(&orphan), Vec::new());
    let empty_base = vec![s("[Artist]"), s("x [y]")];
    assert_eq!(collect_merge_pairs(&empty_base), Vec::new());
}

#[test]
fn merge_plan_aborts_on_duplicate_destination() {
    let names = vec![s("Foo"), s("Foo [ABCD]"), s("Foo [RST]")];
    match plan_merge_split_folders(&names) {
        Ok(_) => panic!("duplicate destinations must abort the plan"),
        Err(dups) => assert_eq!(dups, vec![s("Foo")]),
    }
    let ok_names = vec![s("Song [Artist]"), s("Song")];
    match plan_merge_split_folders(&ok_names) {
        Ok(pairs) => assert_eq!(pairs, vec![pair("Song [Artist]", "Song")]),
        Err(_) => panic!("a single pair has no duplicate destination"),
    }
}

#[test]
fn duplicate_destinations_found_regardless_of_adjacency() {
    let pairs = vec![pair("A [x]", "A"), pair("B [x]", "B"), pair("A [y]", "A")];
    let dups = find_duplicate_destinations(&pairs);
    assert_eq!(dups, vec![s("A")]);
}

#[test]
fn move_works_same_root_is_noop() {
    let subdirs = vec![s("Work1"), s("Work2")];
    let plan = plan_move_works("/packs/a", "/packs/a", &subdirs);
    assert!(matches!(plan, WorksMovePlan::NoOp));
}

#[test]
fn move_works_plans_each_subfolder() {
    let subdirs = vec![s("Work1"), s("Work2")];
    match plan_move_works("/packs/a", "/packs/b", &subdirs) {
        WorksMovePlan::MoveEach(v) => assert_eq!(v, subdirs),
        _ => panic!("expected one move per work folder"),
    }
    let none: Vec<String> = Vec::new();
    assert!(matches!(plan_move_works("/packs/a", "/packs/b", &none), WorksMovePlan::MergeWholeRoot));
}

#[test]
fn same_name_pairs_first_containing_match() {
    let froms = vec![s("Artist A")];
    let tos = vec![s("Something Artist A Remix"), s("Other")];
    let pairs = pair_works_with_same_name(&froms, &tos);
    assert_eq!(pairs, vec![pair("Artist A", "Something Artist A Remix")]);
}

#[test]
fn same_name_pairs_order_and_skips() {
    let froms = vec![s("Alpha"), s("Beta")];
    let tos = vec![s("x Beta x"), s("Alpha"), s("Beta")];
    let pairs = pair_works_with_same_name(&froms, &tos);
    assert_eq!(pairs, vec![pair("Alpha", "Alpha"), pair("Beta", "x Beta x")]);
    let no_match = pair_works_with_same_name(&vec![s("Gamma")], &tos);
    assert_eq!(no_match, Vec::new());
}

#[test]
fn split_plan_buckets_children() {
    let children = vec![s("Alpha"), s("123"), s("あさ"), s("")];
    let plan = plan_split_folders("/x/Pack", "Pack", &children).expect("root name is clean");
    assert_eq!(
        plan,
        vec![
            pair("Alpha", "Pack [ABCD]"),
            pair("123", "Pack [0-9]"),
            pair("あさ", "Pack [平假]"),
            pair("", "Pack [Uncategorized]"),
        ]
    );
}

#[test]
fn split_plan_refuses_bucketed_root() {
    let children = vec![s("Alpha")];
    assert!(plan_split_folders("/x/Pack [ABCD]", "Pack [ABCD]", &children).is_none());
}

#[test]
fn bucket_dir_name_shape() {
    assert_eq!(bucket_dir_name("Pack", "Alpha"), s("Pack [ABCD]"));
    assert_eq!(bucket_dir_name("Pack", "777"), s("Pack [0-9]"));
}

#[test]
fn undo_plan_selects_bucket_siblings() {
    let siblings = vec![s("Pack [0-9]"), s("Pack"), s("Other"), s("Pack [ABCD]"), s("Pack [x")];
    let srcs = plan_undo_split("Pack", &siblings);
    assert_eq!(srcs, vec![s("Pack [0-9]"), s("Pack [ABCD]")]);
    assert_eq!(plan_undo_split("Pack", &vec![s("Loose")]), Vec::<String>::new());
}

#[test]
fn flatten_plan_lists_grandchildren() {
    let children = vec![
        (s("Collection1"), vec![s("WorkA"), s("WorkB")]),
        (s("Collection2"), Vec::new()),
        (s("Collection3"), vec![s("WorkC")]),
    ];
    let moves = plan_move_out(&children);
    assert_eq!(
        moves,
        vec![
            pair("Collection1", "WorkA"),
            pair("Collection1", "WorkB"),
            pair("Collection3", "WorkC"),
        ]
    );
}

#[test]
fn preset_selection_defaults_to_first() {
    let rules = get_remove_media_file_rules();
    assert_eq!(select_media_rule(&rules, 1), get_remove_media_rule_wav_fill_flac());
    assert_eq!(select_media_rule(&rules, 2), get_remove_media_rule_mpg_fill_wmv());
    assert_eq!(select_media_rule(&rules, 99), get_remove_media_rule_oraja());
}

#[test]
fn extension_helpers() {
    assert_eq!(ext_of("track.MP4"), "MP4");
    assert_eq!(ext_of("noext"), "noext");
    assert_eq!(ext_of("a.b.c"), "c");
    assert_eq!(with_ext("track.mp4", "avi"), s("track.avi"));
    assert_eq!(with_ext("noext", "avi"), s("noext.avi"));
    assert_eq!(with_ext("a.b.c", "ogg"), s("a.b.ogg"));
    assert!(str_contains("Something Artist A Remix", "Artist A"));
    assert!(str_contains("abc", ""));
    assert!(!str_contains("ab", "abc"));
}
