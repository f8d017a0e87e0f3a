use nixos_options::matcher::{
    normalize_query, score_candidates, sort_candidates, truncate_candidates,
};
use nixos_options::pipeline::{get_matches, handler};
use nixos_options::resolve::{resolve_all, resolve_declaration};
use nixos_options::store::{load_namespace, OptionsMap, State};
use nixos_options::title::recover;
use nixos_options::{AnyrunConfig, Config, Declaration, NixOSOption, NmdDeclaration};

fn record(ty: &str) -> NixOSOption {
    NixOSOption {
        declarations: Vec::new(),
        description: None,
        default: None,
        example: None,
        loc: Vec::new(),
        read_only: false,
        ty: ty.to_string(),
    }
}

fn record_with_decls(decls: Vec<Declaration>) -> NixOSOption {
    NixOSOption {
        declarations: decls,
        description: None,
        default: None,
        example: None,
        loc: Vec::new(),
        read_only: false,
        ty: "boolean".to_string(),
    }
}

fn doc(keys: &[&str]) -> Vec<(String, NixOSOption)> {
    keys.iter().map(|k| (k.to_string(), record("boolean"))).collect()
}

fn state_with(
    prefix: &str,
    keys: &[&str],
    min_score: i64,
    max_entries: Option<usize>,
) -> State {
    State::load(
        Config {
            options: vec![(prefix.to_string(), vec!["options.json".to_string()])],
            min_score,
            nixpkgs_url: "https://example.org/base".to_string(),
        },
        AnyrunConfig { max_entries },
        vec![(prefix.to_string(), vec![doc(keys)])],
    )
}

#[test]
fn normalize_strips_prefix_trims_and_dots() {
    assert_eq!(
        normalize_query(":nix bool op", ":nix"),
        Some("bool.op".to_string())
    );
    assert_eq!(normalize_query(":nix  a b ", ":nix"), Some("a.b".to_string()));
    assert_eq!(normalize_query("other query", ":nix"), None);
}

#[test]
fn second_source_wins_on_duplicate_key() {
    let mut m = OptionsMap::new();
    m.merge_doc(vec![
        ("a.b".to_string(), record("first")),
        ("c.d".to_string(), record("only-in-first")),
    ]);
    m.merge_doc(vec![
        ("a.b".to_string(), record("second")),
        ("e.f".to_string(), record("only-in-second")),
    ]);
    assert_eq!(m.get("a.b").expect("redefined key").ty, "second");
    assert_eq!(m.get("c.d").expect("unique to first").ty, "only-in-first");
    assert_eq!(m.get("e.f").expect("unique to second").ty, "only-in-second");
    assert!(m.get("missing").is_none());
}

#[test]
fn load_namespace_merges_documents_in_order() {
    let m = load_namespace(vec![
        vec![("x".to_string(), record("one"))],
        vec![("x".to_string(), record("two")), ("y".to_string(), record("why"))],
    ]);
    assert_eq!(m.get("x").unwrap().ty, "two");
    assert_eq!(m.get("y").unwrap().ty, "why");
}

#[test]
fn scores_exceed_threshold_strictly() {
    let m = load_namespace(vec![doc(&["boot.loader.grub.enable", "zzz"])]);
    let low = score_candidates(&m, "boot", -1_000_000);
    let hit = low
        .iter()
        .find(|c| c.key == "boot.loader.grub.enable")
        .expect("subsequence key must be scored");
    let s = hit.score;
    assert!(s > 0);

    let at_boundary = score_candidates(&m, "boot", s);
    assert!(
        at_boundary.iter().all(|c| c.key != "boot.loader.grub.enable"),
        "a candidate scoring exactly the threshold is discarded"
    );
    let below_boundary = score_candidates(&m, "boot", s - 1);
    assert!(below_boundary.iter().any(|c| c.key == "boot.loader.grub.enable"));
    for c in below_boundary.iter() {
        assert!(c.score > s - 1);
    }
}

#[test]
fn non_subsequence_keys_are_discarded_at_zero_threshold() {
    let m = load_namespace(vec![doc(&["boot.loader.grub.enable", "zzz"])]);
    let cands = score_candidates(&m, "boot", 0);
    assert!(cands.iter().all(|c| c.key != "zzz"));
}

#[test]
fn sort_orders_by_descending_score() {
    let m = load_namespace(vec![doc(&[
        "boot.loader.grub.enable",
        "networking.hostName",
        "boot.kernelPackages",
    ])]);
    let mut cands = score_candidates(&m, "boot", -1_000_000);
    sort_candidates(&mut cands);
    for w in cands.windows(2) {
        assert!(w[0].score >= w[1].score);
    }
}

#[test]
fn cap_keeps_the_highest_scoring_candidates() {
    let keys = [
        "boot.a", "boot.b", "boot.c", "boot.d", "boot.e", "boot.f", "boot.g", "boot.h", "boot.i",
        "boot.j",
    ];
    let m = load_namespace(vec![doc(&keys)]);
    let mut cands = score_candidates(&m, "boot", 0);
    assert_eq!(cands.len(), 10);
    sort_candidates(&mut cands);
    let full: Vec<i64> = cands.iter().map(|c| c.score).collect();
    truncate_candidates(&mut cands, Some(3));
    assert_eq!(cands.len(), 3);
    let floor = cands.iter().map(|c| c.score).min().unwrap();
    for dropped in full.iter().skip(3) {
        assert!(floor >= *dropped);
    }
}

#[test]
fn ten_qualifying_candidates_capped_at_three() {
    let keys = [
        "boot.a", "boot.b", "boot.c", "boot.d", "boot.e", "boot.f", "boot.g", "boot.h", "boot.i",
        "boot.j",
    ];
    let state = state_with(":nix", &keys, 0, Some(3));
    let results = get_matches(":nix boot", &state);
    assert_eq!(results.len(), 3);
}

#[test]
fn zero_or_absent_cap_means_unlimited() {
    let keys = ["boot.a", "boot.b", "boot.c", "boot.d"];
    let unlimited = state_with(":nix", &keys, 0, None);
    assert_eq!(get_matches(":nix boot", &unlimited).len(), 4);
    let zero = state_with(":nix", &keys, 0, Some(0));
    assert_eq!(get_matches(":nix boot", &zero).len(), 4);
}

#[test]
fn unmatched_prefix_yields_no_results() {
    let state = state_with(":nix", &["boot.a"], 0, None);
    assert!(get_matches("boot", &state).is_empty());
}

#[test]
fn prefix_routed_query_matches_subsequence_key() {
    let state = state_with(
        ":nix",
        &["boot.loader.grub.enable", "boot.loader.options.port"],
        0,
        None,
    );
    let results = get_matches(":nix bool op", &state);
    let keys: Vec<String> = results
        .iter()
        .map(|r| recover(&r.title).expect("titles must recover"))
        .collect();
    assert!(
        keys.contains(&"boot.loader.options.port".to_string()),
        "normalized query bool.op is an ordered subsequence of this key"
    );
    assert!(
        !keys.contains(&"boot.loader.grub.enable".to_string()),
        "that key holds no letter p, so bool.op is no subsequence of it"
    );
}

#[test]
fn every_result_title_recovers_to_a_known_key() {
    let keys = ["boot.loader.grub.enable", "boot.kernelParams"];
    let state = state_with(":nix", &keys, 0, None);
    for r in get_matches(":nix boot", &state) {
        let k = recover(&r.title).expect("titles must recover");
        assert!(state.lookup(&k).is_some());
    }
}

#[test]
fn relative_declaration_resolves_against_base() {
    let d = Declaration::NixOS("nixos/modules/foo.nix".to_string());
    assert_eq!(
        resolve_declaration(&d, "https://example.org/base"),
        "https://example.org/base/nixos/modules/foo.nix"
    );
}

#[test]
fn absolute_declaration_resolves_to_itself() {
    let d = Declaration::NixOS("https://example.org/abs.nix".to_string());
    assert_eq!(
        resolve_declaration(&d, "https://example.org/base"),
        "https://example.org/abs.nix"
    );
    let n = Declaration::Nmd(NmdDeclaration {
        url: "https://example.org/nmd.nix".to_string(),
    });
    assert_eq!(
        resolve_declaration(&n, "https://example.org/base"),
        "https://example.org/nmd.nix"
    );
}

#[test]
fn structured_declaration_is_used_as_is_even_when_not_a_url() {
    let n = Declaration::Nmd(NmdDeclaration {
        url: "not a parseable url".to_string(),
    });
    assert_eq!(
        resolve_declaration(&n, "https://example.org/base"),
        "not a parseable url"
    );
}

#[test]
fn shadowed_records_are_matched_once_from_the_later_source() {
    let state = State::load(
        Config {
            options: Vec::new(),
            min_score: 0,
            nixpkgs_url: "https://example.org/base".to_string(),
        },
        AnyrunConfig { max_entries: None },
        vec![(
            ":nix".to_string(),
            vec![
                vec![("boot.a".to_string(), record("stale"))],
                vec![("boot.a".to_string(), record("fresh"))],
            ],
        )],
    );
    let results = get_matches(":nix boot", &state);
    assert_eq!(results.len(), 1, "a redefined key yields one candidate, not two");
    assert!(
        results[0].description.contains("fresh"),
        "the candidate is rendered from the later source's record"
    );
    assert!(!results[0].description.contains("stale"));
}

#[test]
fn resolve_all_keeps_declaration_order() {
    let decls = vec![
        Declaration::NixOS("a/b.nix".to_string()),
        Declaration::NixOS("https://example.org/abs.nix".to_string()),
    ];
    assert_eq!(
        resolve_all(&decls, "https://example.org/base"),
        vec![
            "https://example.org/base/a/b.nix".to_string(),
            "https://example.org/abs.nix".to_string(),
        ]
    );
}

#[test]
fn selection_of_known_key_closes_and_resolves_declarations() {
    let rec = record_with_decls(vec![
        Declaration::NixOS("nixos/modules/foo.nix".to_string()),
        Declaration::Nmd(NmdDeclaration {
            url: "https://example.org/nmd.nix".to_string(),
        }),
    ]);
    let state = State::load(
        Config {
            options: Vec::new(),
            min_score: 0,
            nixpkgs_url: "https://example.org/base".to_string(),
        },
        AnyrunConfig { max_entries: None },
        vec![(
            ":nix".to_string(),
            vec![vec![("boot.loader.grub.enable".to_string(), rec)]],
        )],
    );
    let results = get_matches(":nix grub", &state);
    assert!(!results.is_empty());
    let outcome = handler(&results[0].title, &state);
    assert!(outcome.close);
    assert_eq!(
        outcome.urls,
        vec![
            "https://example.org/base/nixos/modules/foo.nix".to_string(),
            "https://example.org/nmd.nix".to_string(),
        ]
    );
}

#[test]
fn stale_selection_keeps_the_view_open() {
    let state = state_with(":nix", &["boot.a"], 0, None);
    let outcome = handler("<span font_family=\"monospace\">gone.key</span>", &state);
    assert!(!outcome.close);
    assert!(outcome.urls.is_empty());

    let garbage = handler("nonsense", &state);
    assert!(!garbage.close);
    assert!(garbage.urls.is_empty());
}

#[test]
fn first_namespace_wins_on_duplicate_keys_across_namespaces() {
    let mk = |ty: &str| vec![vec![("dup.key".to_string(), record(ty))]];
    let state = State::load(
        Config {
            options: Vec::new(),
            min_score: 0,
            nixpkgs_url: "https://example.org/base".to_string(),
        },
        AnyrunConfig { max_entries: None },
        vec![
            (":a".to_string(), mk("from-a")),
            (":b".to_string(), mk("from-b")),
        ],
    );
    assert_eq!(state.lookup("dup.key").unwrap().ty, "from-a");
}

#[test]
fn overlapping_prefixes_both_contribute() {
    let state = State::load(
        Config {
            options: Vec::new(),
            min_score: 0,
            nixpkgs_url: "https://example.org/base".to_string(),
        },
        AnyrunConfig { max_entries: None },
        vec![
            (":n".to_string(), vec![doc(&["mix.apple"])]),
            (":nix".to_string(), vec![doc(&["gamma.delta"])]),
        ],
    );
    let results = get_matches(":nix a", &state);
    let keys: Vec<String> = results
        .iter()
        .map(|r| recover(&r.title).unwrap())
        .collect();
    assert!(keys.contains(&"mix.apple".to_string()));
    assert!(keys.contains(&"gamma.delta".to_string()));
}
