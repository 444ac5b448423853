use talker_pack::builder::parse;
use talker_pack::descriptor::descriptor_path;
use talker_pack::path::SamplePath;
use talker_pack::scanner::{is_allowed, is_sample_path, select_samples, sound_extensions};
use talker_pack::table::{table_bytes, table_path};

fn path(segments: &[&str]) -> SamplePath {
    SamplePath::new(segments.iter().map(|s| s.as_bytes().to_vec()).collect())
}

#[test]
fn wav_is_the_only_sound_extension() {
    assert_eq!(sound_extensions(), vec![b"wav".to_vec()]);
}

#[test]
fn samples_are_found_at_every_depth_among_other_files() {
    let listing = vec![
        path(&["pack", "readme.txt"]),
        path(&["pack", "a.wav"]),
        path(&["pack", "joy", "b.wav"]),
        path(&["pack", "joy", "notes.md"]),
        path(&["pack", "joy", "deep", "deeper", "c.wav"]),
        path(&["pack", "pack.csv"]),
        path(&["pack", "sad", "d.wav"]),
        path(&["pack", "character.ini"]),
    ];
    let samples = select_samples(listing, &sound_extensions());
    assert_eq!(
        samples,
        vec![
            path(&["pack", "a.wav"]),
            path(&["pack", "joy", "b.wav"]),
            path(&["pack", "joy", "deep", "deeper", "c.wav"]),
            path(&["pack", "sad", "d.wav"]),
        ]
    );
}

#[test]
fn other_files_do_not_change_what_is_found() {
    let wanted = vec![path(&["p", "a.wav"]), path(&["p", "x", "b.wav"])];
    let mixed = vec![
        path(&["p", "a.mp3"]),
        path(&["p", "a.wav"]),
        path(&["p", "x", "b.wav.bak"]),
        path(&["p", "x", "b.wav"]),
        path(&["p", "wav"]),
    ];
    let allowed = sound_extensions();
    assert_eq!(select_samples(mixed, &allowed), wanted);
    assert_eq!(select_samples(wanted.clone(), &allowed), wanted);
}

#[test]
fn nothing_is_found_where_there_is_no_sample() {
    let listing = vec![path(&["p", "a.txt"]), path(&["p", "b"])];
    assert!(select_samples(listing, &sound_extensions()).is_empty());
    assert!(select_samples(Vec::new(), &sound_extensions()).is_empty());
}

#[test]
fn extension_is_compared_as_it_is_written() {
    let allowed = sound_extensions();
    assert!(is_sample_path(&path(&["p", "a.wav"]), &allowed));
    assert!(!is_sample_path(&path(&["p", "a.WAV"]), &allowed));
    assert!(!is_sample_path(&path(&["p", "a.Wav"]), &allowed));
    assert!(!is_sample_path(&path(&["p", "a.wave"]), &allowed));
    assert!(!is_sample_path(&path(&["p", "a.wa"]), &allowed));
    assert!(!is_sample_path(&path(&["p", "a.wav "]), &allowed));
}

#[test]
fn only_the_last_extension_counts() {
    let allowed = sound_extensions();
    assert!(is_sample_path(&path(&["a.tar.wav"]), &allowed));
    assert!(!is_sample_path(&path(&["a.wav.txt"]), &allowed));
    assert!(!is_sample_path(&path(&["dir.wav", "a.txt"]), &allowed));
}

#[test]
fn name_without_extension_is_not_a_sample() {
    let allowed = sound_extensions();
    assert!(!is_sample_path(&path(&["wav"]), &allowed));
    assert!(!is_sample_path(&path(&[".wav"]), &allowed));
    assert!(!is_sample_path(&path(&[]), &allowed));
}

#[test]
fn several_extensions_may_be_allowed() {
    let allowed = vec![b"wav".to_vec(), b"ogg".to_vec()];
    assert!(is_allowed(&b"ogg".to_vec(), &allowed));
    assert!(is_allowed(&b"wav".to_vec(), &allowed));
    assert!(!is_allowed(&b"mp3".to_vec(), &allowed));
    assert!(!is_allowed(&b"wav".to_vec(), &Vec::new()));
    let listing = vec![path(&["a.ogg"]), path(&["b.mp3"]), path(&["c.wav"])];
    assert_eq!(select_samples(listing, &allowed), vec![path(&["a.ogg"]), path(&["c.wav"])]);
}

#[test]
fn found_samples_become_records() {
    let root = path(&["pack"]);
    let listing = vec![
        path(&["pack", "pack.csv"]),
        path(&["pack", "joy", "b.wav"]),
        path(&["pack", "a.wav"]),
    ];
    let samples = select_samples(listing, &sound_extensions());
    let records = parse(&root, &samples).unwrap();
    assert_eq!(records.len(), 2);
    assert_eq!(records[0].relative_path, "joy/b.wav");
    assert_eq!(records[1].relative_path, "a.wav");
}

#[test]
fn what_a_run_writes_is_not_taken_for_a_sample() {
    let allowed = sound_extensions();
    for root in [path(&["packs", "maki"]), path(&["wav"]), path(&["a.wav"]), path(&[""])] {
        assert!(!is_sample_path(&table_path(&root).unwrap(), &allowed));
        assert!(!is_sample_path(&descriptor_path(&root), &allowed));
    }
}

#[test]
fn second_run_writes_the_same_table() {
    let root = path(&["packs", "maki"]);
    let before = vec![
        path(&["packs", "maki", "joy", "b, c.wav"]),
        path(&["packs", "maki", "a.wav"]),
    ];
    let mut after = vec![descriptor_path(&root)];
    after.extend(before.clone());
    after.insert(2, table_path(&root).unwrap());
    let allowed = sound_extensions();
    let first = table_bytes(&parse(&root, &select_samples(before, &allowed)).unwrap());
    let second = table_bytes(&parse(&root, &select_samples(after, &allowed)).unwrap());
    assert_eq!(first, second);
    assert_eq!(first, b"\"joy/b, c.wav\",\"b, c\",\"b, c\",,joy\na.wav,a,a,,\n".to_vec());
}
