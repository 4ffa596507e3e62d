use readset::ordered::TextMap;
use readset::purity::{question_kind, question_kind_index, verdict, PathReads, Purity, Verdict, QUESTION_KINDS};
use readset::task::{
    FetchKind, FetchRequest, FetchTreeRequest, FilteredCopy, HashAlgo, NeedPath, PathMethod,
    TreeFetcher,
};
use readset::value::{ambient_path, ContextElem};
use std::collections::HashSet;

const CONFIGS: [(&str, Purity); 4] = [
    (
        "neither",
        Purity {
            pure_eval: false,
            restrict_eval: false,
        },
    ),
    (
        "pure",
        Purity {
            pure_eval: true,
            restrict_eval: false,
        },
    ),
    (
        "restrict",
        Purity {
            pure_eval: false,
            restrict_eval: true,
        },
    ),
    (
        "both",
        Purity {
            pure_eval: true,
            restrict_eval: true,
        },
    ),
];

fn built() -> ContextElem {
    ContextElem::Built {
        drv: "/nix/store/aaa-x.drv".to_owned(),
        output: "out".to_owned(),
    }
}

fn fetch(pinned: bool) -> NeedPath {
    NeedPath::Fetch(Box::new(FetchRequest {
        url: "https://example.invalid/x.tar.gz".to_owned(),
        name: "x.tar.gz".to_owned(),
        kind: FetchKind::File,
        expected_sha256: pinned.then(|| "sha256-".to_owned() + &"A".repeat(43) + "="),
    }))
}

#[test]
fn the_policy_table_covers_every_question() {
    let rows: Vec<&str> = policy_table()
        .iter()
        .map(|(need, _, _)| question_kind(need))
        .collect();
    let covered: HashSet<&str> = rows.iter().copied().collect();
    let missing: Vec<&str> = QUESTION_KINDS
        .iter()
        .copied()
        .filter(|kind| !covered.contains(kind))
        .collect();
    assert!(
        missing.is_empty(),
        "no row in the purity policy table for {missing:?}, so what `verdict` \
         answers for those questions is untested. Add a row to `policy_table` \
         with the behaviour it states."
    );
    assert_eq!(
        rows.len(),
        QUESTION_KINDS.len() + 1,
        "the table has to hold one row per question, plus the second \
         `Fetch` row for the unpinned case"
    );
}

fn policy_table() -> Vec<(NeedPath, [Verdict; 4], [Verdict; 4])> {
    let ask = [Verdict::Ask, Verdict::Ask, Verdict::Ask, Verdict::Ask];
    let refuse_when_set = [
        Verdict::Ask,
        Verdict::Refuse,
        Verdict::Refuse,
        Verdict::Refuse,
    ];
    let empty_when_set = [
        Verdict::Ask,
        Verdict::EmptyString,
        Verdict::EmptyString,
        Verdict::EmptyString,
    ];
    let unpinned_fetch = [
        Verdict::Ask,
        Verdict::Error(
            "in pure evaluation mode, 'fetchurl' requires a 'sha256' argument".to_owned(),
        ),
        Verdict::Ask,
        Verdict::Error(
            "in pure evaluation mode, 'fetchurl' requires a 'sha256' argument".to_owned(),
        ),
    ];
    vec![
        (
            NeedPath::Import(ambient_path("/tmp/a.nix")),
            refuse_when_set.clone(),
            ask.clone(),
        ),
        (
            NeedPath::Contents(ambient_path("/tmp/a.txt")),
            refuse_when_set.clone(),
            ask.clone(),
        ),
        (
            NeedPath::HashFile {
                path: ambient_path("/tmp/a.txt"),
                algo: HashAlgo::Sha256,
            },
            refuse_when_set.clone(),
            ask.clone(),
        ),
        (
            NeedPath::Exists(ambient_path("/tmp/a.txt")),
            refuse_when_set.clone(),
            ask.clone(),
        ),
        (
            NeedPath::DirExists(ambient_path("/tmp/a.txt")),
            refuse_when_set.clone(),
            ask.clone(),
        ),
        (
            NeedPath::Entries(ambient_path("/tmp")),
            refuse_when_set.clone(),
            ask.clone(),
        ),
        (
            NeedPath::Kind(ambient_path("/tmp/a.txt")),
            refuse_when_set.clone(),
            ask.clone(),
        ),
        (
            NeedPath::MaybeKind(ambient_path("/tmp/a.txt")),
            refuse_when_set.clone(),
            ask.clone(),
        ),
        (
            NeedPath::Env("HOME".to_owned()),
            empty_when_set.clone(),
            empty_when_set,
        ),
        (
            NeedPath::StorePath(ambient_path("/tmp/a.txt")),
            ask.clone(),
            ask.clone(),
        ),
        (
            NeedPath::UseStorePath(ambient_path(
                "/nix/store/00000000000000000000000000000000-a",
            )),
            [
                Verdict::Ask,
                Verdict::Error(
                    "'builtins.storePath' is not allowed in pure evaluation mode".to_owned(),
                ),
                Verdict::Ask,
                Verdict::Error(
                    "'builtins.storePath' is not allowed in pure evaluation mode".to_owned(),
                ),
            ],
            [
                Verdict::Ask,
                Verdict::Error(
                    "'builtins.storePath' is not allowed in pure evaluation mode".to_owned(),
                ),
                Verdict::Ask,
                Verdict::Error(
                    "'builtins.storePath' is not allowed in pure evaluation mode".to_owned(),
                ),
            ],
        ),
        (
            NeedPath::StoreFiltered(Box::new(FilteredCopy {
                root: ambient_path("/tmp/tree"),
                name: "tree".to_owned(),
                method: PathMethod::NixArchive,
                accepted: None,
                expected_sha256: None,
                inherit_references: false,
            })),
            ask.clone(),
            ask.clone(),
        ),
        (
            NeedPath::StoreText {
                name: "x".to_owned(),
                contents: "hi".to_owned(),
                references: Vec::new(),
            },
            ask.clone(),
            ask.clone(),
        ),
        (
            NeedPath::EnsurePath("/nix/store/aaa-x".to_owned()),
            ask.clone(),
            ask.clone(),
        ),
        (NeedPath::Realise(vec![built()]), ask.clone(), ask.clone()),
        (
            NeedPath::WriteDrv {
                name: "x".to_owned(),
                aterm: "Derive([],[],[],\"x86_64-linux\",\"/bin/sh\",[],[])".to_owned(),
                expected: "/nix/store/aaa-x.drv".to_owned(),
            },
            ask.clone(),
            ask.clone(),
        ),
        (fetch(true), ask.clone(), ask.clone()),
        (fetch(false), unpinned_fetch.clone(), unpinned_fetch),
        (
            NeedPath::FetchTree(Box::new(FetchTreeRequest {
                attrs: TextMap::new(),
                fetcher: TreeFetcher::Tree,
            })),
            ask.clone(),
            ask.clone(),
        ),
        (
            NeedPath::Flake("github:NixOS/nixpkgs".to_owned()),
            ask.clone(),
            ask.clone(),
        ),
        (
            NeedPath::ParseFlakeRef("github:NixOS/nixpkgs".to_owned()),
            ask.clone(),
            ask.clone(),
        ),
        (
            NeedPath::FlakeRefToString(TextMap::new()),
            ask.clone(),
            ask.clone(),
        ),
        (
            NeedPath::Warn("careful".to_owned()),
            ask.clone(),
            ask.clone(),
        ),
        (
            NeedPath::Trace("tracing".to_owned()),
            ask.clone(),
            ask.clone(),
        ),
        (
            NeedPath::FindFile {
                entries: Vec::new(),
                name: "nixpkgs".to_owned(),
            },
            ask.clone(),
            ask.clone(),
        ),
        (NeedPath::NixPath, ask.clone(), ask),
    ]
}

#[test]
fn each_question_gets_the_verdict_cppnix_behaviour_implies() {
    for (need, direct, bridged) in policy_table() {
        for (reads, expected) in [
            (PathReads::Direct, &direct),
            (PathReads::ThroughEmbedder, &bridged),
        ] {
            for ((label, purity), want) in CONFIGS.iter().zip(expected.iter()) {
                assert_eq!(
                    &verdict(&need, *purity, reads),
                    want,
                    "{} under {label} with reads {reads:?} is not what the policy says",
                    question_kind(&need)
                );
            }
        }
    }
}

#[test]
fn write_drv_leans_on_the_plain_reads_refusing_under_direct() {
    let reads = [
        NeedPath::Import(ambient_path("/tmp/a.nix")),
        NeedPath::Contents(ambient_path("/tmp/a.txt")),
        NeedPath::Exists(ambient_path("/tmp/a.txt")),
        NeedPath::DirExists(ambient_path("/tmp/a.txt")),
        NeedPath::Entries(ambient_path("/tmp")),
        NeedPath::Kind(ambient_path("/tmp/a.txt")),
    ];
    let write = NeedPath::WriteDrv {
        name: "x".to_owned(),
        aterm: "Derive([],[],[],\"x86_64-linux\",\"/bin/sh\",[],[])".to_owned(),
        expected: "/nix/store/aaa-x.drv".to_owned(),
    };
    for (label, purity) in &CONFIGS {
        if !purity.any() {
            continue;
        }
        for need in &reads {
            assert_eq!(
                verdict(need, *purity, PathReads::Direct),
                Verdict::Refuse);
        }
        for reads_mode in [PathReads::Direct, PathReads::ThroughEmbedder] {
            assert_eq!(
                verdict(&write, *purity, reads_mode),
                Verdict::Ask,
                "WriteDrv under {label} with reads {reads_mode:?}"
            );
        }
    }
}

#[test]
fn the_six_plain_reads_are_served_only_when_the_embedder_answers() {
    let six = [
        NeedPath::Import(ambient_path("/tmp/a.nix")),
        NeedPath::Contents(ambient_path("/tmp/a.txt")),
        NeedPath::Exists(ambient_path("/tmp/a.txt")),
        NeedPath::DirExists(ambient_path("/tmp/a.txt")),
        NeedPath::Entries(ambient_path("/tmp")),
        NeedPath::Kind(ambient_path("/tmp/a.txt")),
    ];
    for need in &six {
        for (label, purity) in &CONFIGS {
            assert_eq!(
                verdict(need, *purity, PathReads::ThroughEmbedder),
                Verdict::Ask,
                "{} under {label} is refused with an embedder attached, which \
                 none of them should be",
                question_kind(need)
            );
            let standalone = verdict(need, *purity, PathReads::Direct);
            if purity.any() {
                assert_eq!(
                    standalone,
                    Verdict::Refuse,
                    "{} under {label} is answered from std::fs, which honours \
                     no allow list",
                    question_kind(need)
                );
            } else {
                assert_eq!(standalone, Verdict::Ask);
            }
        }
    }
}

#[test]
fn an_embedder_leaves_no_refusal_anywhere_in_the_table() {
    for (need, _, _) in policy_table() {
        for (label, purity) in &CONFIGS {
            assert_ne!(
                verdict(&need, *purity, PathReads::ThroughEmbedder),
                Verdict::Refuse,
                "{} under {label} refuses even with an embedder",
                question_kind(&need)
            );
        }
    }
}

#[test]
fn a_refusal_names_the_settings_that_are_actually_on() {
    for ((label, purity), want) in CONFIGS.iter().zip([
        "no purity setting",
        "pure-eval",
        "restrict-eval",
        "pure-eval and restrict-eval",
    ]) {
        assert_eq!(purity.names(), want, "wrong wording for {label}");
    }
}

#[test]
fn a_pinned_fetch_is_served_under_pure_eval() {
    let pure = Purity {
        pure_eval: true,
        restrict_eval: false,
    };
    for reads in [PathReads::Direct, PathReads::ThroughEmbedder] {
        assert_eq!(verdict(&fetch(true), pure, reads), Verdict::Ask);
        assert!(matches!(
            verdict(&fetch(false), pure, reads),
            Verdict::Error(_)
        ));
    }
}

#[test]
fn kinds_are_listed_where_their_index_says() {
    for (need, _, _) in policy_table() {
        assert_eq!(QUESTION_KINDS[question_kind_index(&need)], question_kind(&need));
    }
}

#[test]
fn the_current_settings_are_the_ones_that_were_given() {
    assert_eq!(Purity::current(true, false), CONFIGS[1].1);
    assert!(!Purity::current(false, false).any());
    assert!(Purity::current(false, true).any());
}
