use phi3_mixed_quant::sources::{
    is_hf_model_id, parse_pack_args, parse_quantize_args, shard_files, shards_of_index, ArgsError,
    DownloadError, DownloadEvent, DownloadState, Downloader,
};

fn args(v: &[&str]) -> Vec<String> {
    v.iter().map(|s| s.to_string()).collect()
}

#[test]
fn quantizer_arguments() {
    let a = parse_quantize_args(&args(&["in", "out"])).unwrap();
    assert_eq!((a.input.as_str(), a.out_dir.as_str(), a.file), ("in", "out", None));
    let b = parse_quantize_args(&args(&["in", "out", "x", "--file", "f", "--file", "g"])).unwrap();
    assert_eq!(b.file, Some("f".to_string()));
    let c = parse_quantize_args(&args(&["--file", "f"])).unwrap();
    assert_eq!((c.input.as_str(), c.file), ("--file", Some("f".to_string())));
    assert_eq!(parse_quantize_args(&args(&["in"])).unwrap_err(), ArgsError::Usage);
    assert_eq!(
        parse_quantize_args(&args(&["in", "out", "--file"])).unwrap_err(),
        ArgsError::FileNeedsName
    );
}

#[test]
fn packer_arguments() {
    let a = parse_pack_args(&args(&["m", "d", "o", "rest"])).unwrap();
    assert_eq!(
        (a.original.as_str(), a.quantized_dir.as_str(), a.output.as_str()),
        ("m", "d", "o")
    );
    assert_eq!(parse_pack_args(&args(&["m", "d"])).unwrap_err(), ArgsError::Usage);
}

#[test]
fn model_names_are_told_from_paths() {
    assert!(is_hf_model_id("microsoft/Phi-3-mini-4k-instruct", false));
    assert!(is_hf_model_id("a.b/c", false));
    assert!(!is_hf_model_id("microsoft/Phi-3-mini-4k-instruct", true));
    for s in [
        "model", "a/b/c", "./b", "/b", "~/b", "a/", "/", "a/b.safetensors", "", "a//b", "~a/b",
        ".a/b",
    ] {
        assert!(!is_hf_model_id(s, false), "{s}");
    }
}

#[test]
fn shards_are_listed_once_in_order() {
    let v = vec![
        Some("b".to_string()),
        None,
        Some("a".to_string()),
        Some("b".to_string()),
        Some("a2".to_string()),
    ];
    assert_eq!(shard_files(&v), vec!["a", "a2", "b"]);
    assert!(shard_files(&vec![None]).is_empty());
}

#[test]
fn indexes_are_parsed() {
    let json = br#"{"metadata": {}, "weight_map": {"x": "m-2.st", "y": "m-1.st", "z": 5, "w": "m-2.st"}}"#;
    assert_eq!(shards_of_index(json).unwrap(), Some(args(&["m-1.st", "m-2.st"])));
    assert_eq!(shards_of_index(b"{}").unwrap(), None);
    assert_eq!(shards_of_index(br#"{"weight_map": 3}"#).unwrap(), None);
    assert_eq!(shards_of_index(b"[1]").unwrap(), None);
    assert_eq!(shards_of_index(br#"{"weight_map": {}}"#).unwrap(), Some(vec![]));
    assert!(shards_of_index(b"{").is_err());
}

const INDEX: &[u8] = br#"{"weight_map": {"x": "s2", "y": "s1"}}"#;

fn ok(s: DownloadState) -> DownloadState {
    s.next(DownloadEvent::Fetched(true), Downloader::Baseline)
}

fn no(s: DownloadState) -> DownloadState {
    s.next(DownloadEvent::Fetched(false), Downloader::Baseline)
}

#[test]
fn given_files_are_fetched_alone() {
    let s = DownloadState::start(Some("f"));
    assert_eq!(s.wanted(), Some("f".to_string()));
    assert!(s.keeps());
    assert!(matches!(ok(s), DownloadState::Done));
    let s = no(DownloadState::start(Some("f")));
    assert!(matches!(s, DownloadState::Failed(DownloadError::File(f)) if f == "f"));
}

#[test]
fn single_files_are_tried_first() {
    let s = DownloadState::start(None);
    assert_eq!(s.wanted(), Some("model.safetensors".to_string()));
    assert!(matches!(ok(s), DownloadState::Done));
}

#[test]
fn shards_are_fetched_in_order() {
    let s = no(DownloadState::start(None));
    assert_eq!(s.wanted(), Some("model.safetensors.index.json".to_string()));
    assert!(!s.keeps());
    let s = ok(s);
    assert!(matches!(s, DownloadState::ReadIndex));
    assert_eq!(s.wanted(), None);
    let s = s.next(DownloadEvent::IndexRead(INDEX), Downloader::Baseline);
    assert_eq!(s.wanted(), Some("s1".to_string()));
    assert!(s.keeps());
    let s = ok(s);
    assert_eq!(s.wanted(), Some("s2".to_string()));
    let failed = no(s);
    assert!(matches!(failed, DownloadState::Failed(DownloadError::Shard(f)) if f == "s2"));
    let s = DownloadState::ReadIndex.next(DownloadEvent::IndexRead(INDEX), Downloader::Baseline);
    assert!(matches!(ok(ok(s)), DownloadState::Done));
}

#[test]
fn models_without_files_fail() {
    let s = no(no(DownloadState::start(None)));
    assert!(matches!(s, DownloadState::Failed(DownloadError::NoIndex)));
    let read = |json: &[u8], d: Downloader| {
        DownloadState::ReadIndex.next(DownloadEvent::IndexRead(json), d)
    };
    assert!(matches!(
        read(b"{", Downloader::Baseline),
        DownloadState::Failed(DownloadError::BadIndex)
    ));
    assert!(matches!(
        read(b"{}", Downloader::Baseline),
        DownloadState::Failed(DownloadError::NoFiles)
    ));
    assert!(matches!(
        read(b"{}", Downloader::Experimental),
        DownloadState::Failed(DownloadError::NoWeightMap)
    ));
    let empty = br#"{"weight_map": {"a": 1}}"#;
    assert!(matches!(
        read(empty, Downloader::Baseline),
        DownloadState::Failed(DownloadError::NoFiles)
    ));
    assert!(matches!(read(empty, Downloader::Experimental), DownloadState::Done));
}

#[test]
fn stray_events_change_nothing() {
    let s = DownloadState::start(None).next(DownloadEvent::IndexRead(INDEX), Downloader::Baseline);
    assert!(matches!(s, DownloadState::Single));
    assert!(matches!(ok(DownloadState::Done), DownloadState::Done));
}
