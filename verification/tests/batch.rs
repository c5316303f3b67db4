use atool::batch::candidate_name;
use atool::batch::decimal_string;
use atool::batch::is_taken;
use atool::batch::resolve_output_name;
use atool::batch::split_file_name;
use atool::batch::Batch;
use atool::batch::BatchAction;
use atool::batch::BatchEvent;
use atool::batch::MAX_SUFFIXES;

fn names(list: &[&str]) -> Vec<String> {
    list.iter().map(|s| s.to_string()).collect()
}

#[test]
fn a_free_name_is_kept() {
    assert_eq!(resolve_output_name("movie.mp4", &names(&[])), Some("movie.mp4".to_string()));
    assert_eq!(
        resolve_output_name("movie.mp4", &names(&["other.mp4", "movie_0.mp4", "movie.mkv"])),
        Some("movie.mp4".to_string())
    );
}

#[test]
fn a_taken_name_gets_the_first_free_suffix() {
    assert_eq!(
        resolve_output_name("movie.mp4", &names(&["movie.mp4"])),
        Some("movie_0.mp4".to_string())
    );
    assert_eq!(
        resolve_output_name("movie.mp4", &names(&["movie_1.mp4", "movie.mp4", "movie_0.mp4"])),
        Some("movie_2.mp4".to_string())
    );
    assert_eq!(
        resolve_output_name("movie.mp4", &names(&["movie.mp4", "movie_1.mp4"])),
        Some("movie_0.mp4".to_string())
    );
}

#[test]
fn the_picked_name_does_not_exist() {
    let mut taken = names(&["clip.mkv"]);
    for i in 0..37u32 {
        taken.push(format!("clip_{}.mkv", i));
    }
    let picked = resolve_output_name("clip.mkv", &taken).unwrap();
    assert_eq!(picked, "clip_37.mkv");
    assert!(!taken.contains(&picked));
}

#[test]
fn a_thousand_collisions_skip_the_file() {
    assert_eq!(MAX_SUFFIXES, 1000);
    let mut taken = names(&["clip.mkv"]);
    for i in 0..1000u32 {
        taken.push(format!("clip_{}.mkv", i));
    }
    assert_eq!(resolve_output_name("clip.mkv", &taken), None);
    taken.remove(1000);
    assert_eq!(resolve_output_name("clip.mkv", &taken), Some("clip_999.mkv".to_string()));
}

#[test]
fn the_suffix_stands_before_the_extension() {
    assert_eq!(candidate_name("movie.mp4", 0), "movie_0.mp4");
    assert_eq!(candidate_name("movie.mp4", 999), "movie_999.mp4");
    assert_eq!(candidate_name("archive.tar.gz", 12), "archive.tar_12.gz");
    assert_eq!(candidate_name("movie", 3), "movie_3");
    assert_eq!(candidate_name(".hidden", 3), ".hidden_3");
    assert_eq!(candidate_name("movie.", 3), "movie_3.");
    assert_eq!(candidate_name("..", 1), ".._1");
    assert_eq!(candidate_name("", 1), "_1");
    assert_eq!(candidate_name("vidéo.mkv", 10), "vidéo_10.mkv");
}

#[test]
fn file_names_are_cut_at_the_last_dot() {
    assert_eq!(split_file_name("movie.mp4"), ("movie".to_string(), Some("mp4".to_string())));
    assert_eq!(split_file_name("a.b.c"), ("a.b".to_string(), Some("c".to_string())));
    assert_eq!(split_file_name("movie"), ("movie".to_string(), None));
    assert_eq!(split_file_name(".bashrc"), (".bashrc".to_string(), None));
    assert_eq!(split_file_name(".bashrc.bak"), (".bashrc".to_string(), Some("bak".to_string())));
    assert_eq!(split_file_name("movie."), ("movie".to_string(), Some("".to_string())));
    assert_eq!(split_file_name(".."), ("..".to_string(), None));
    assert_eq!(split_file_name("..."), ("..".to_string(), Some("".to_string())));
    assert_eq!(split_file_name("."), (".".to_string(), None));
    assert_eq!(split_file_name(""), ("".to_string(), None));
}

#[test]
fn file_names_are_cut_as_paths_are() {
    for name in ["movie.mp4", "a.b.c", "movie", ".bashrc", ".bashrc.bak", "movie.", "...", "x..y"] {
        let path = std::path::Path::new(name);
        let stem = path.file_stem().unwrap().to_str().unwrap().to_string();
        let extension = path.extension().map(|e| e.to_str().unwrap().to_string());
        assert_eq!(split_file_name(name), (stem, extension));
    }
}

#[test]
fn numbers_are_written_in_decimal() {
    assert_eq!(decimal_string(0), "0");
    assert_eq!(decimal_string(7), "7");
    assert_eq!(decimal_string(10), "10");
    assert_eq!(decimal_string(999), "999");
    assert_eq!(decimal_string(1000), "1000");
    assert_eq!(decimal_string(4294967295), "4294967295");
    for n in [0u32, 9, 11, 100, 12345, 900000009] {
        assert_eq!(decimal_string(n), n.to_string());
    }
}

#[test]
fn taken_names_are_found() {
    let taken = names(&["a", "b.mp4", ""]);
    assert!(is_taken(&taken, &"a".to_string()));
    assert!(is_taken(&taken, &"b.mp4".to_string()));
    assert!(is_taken(&taken, &"".to_string()));
    assert!(!is_taken(&taken, &"b".to_string()));
    assert!(!is_taken(&Vec::new(), &"a".to_string()));
}

/// Runs a batch over paths and a directory that is played by a list of names;
/// `broken` names the inputs whose conversion fails. Returns the conversions
/// that were asked for.
fn run_batch(
    paths: &[&str],
    directory: &mut Vec<String>,
    broken: &[usize],
) -> (Vec<(usize, String)>, (usize, usize, usize)) {
    let mut asked = Vec::new();
    let (mut batch, mut action) = Batch::begin(paths.len());
    loop {
        let event = match action {
            BatchAction::Finished => break,
            BatchAction::Inspect { input } => BatchEvent::Inspected {
                file_name: std::path::Path::new(paths[input])
                    .file_name()
                    .map(|n| n.to_str().unwrap().to_string()),
                taken: directory.clone(),
            },
            BatchAction::Convert { input, output_name } => {
                asked.push((input, output_name.clone()));
                let ok = !broken.contains(&input);
                if ok {
                    directory.push(output_name);
                }
                BatchEvent::Converted { ok }
            }
        };
        let (next, answer) = batch.step(event);
        batch = next;
        action = answer;
    }
    assert!(batch.is_finished());
    (asked, batch.counts())
}

#[test]
fn a_malformed_input_does_not_stop_the_batch() {
    let mut directory = Vec::new();
    let (asked, counts) =
        run_batch(&["/in/a.mp4", "/in/broken.mp4", "/in/c.mp4"], &mut directory, &[1]);
    assert_eq!(
        asked,
        vec![
            (0, "a.mp4".to_string()),
            (1, "broken.mp4".to_string()),
            (2, "c.mp4".to_string()),
        ]
    );
    assert_eq!(counts, (2, 1, 0));
    assert_eq!(directory, names(&["a.mp4", "c.mp4"]));
}

#[test]
fn a_batch_avoids_the_names_it_has_written() {
    let mut directory = names(&["a.mp4"]);
    let (asked, counts) =
        run_batch(&["/x/a.mp4", "/y/a.mp4", "/z/a.mp4"], &mut directory, &[]);
    assert_eq!(
        asked,
        vec![
            (0, "a_0.mp4".to_string()),
            (1, "a_1.mp4".to_string()),
            (2, "a_2.mp4".to_string()),
        ]
    );
    assert_eq!(counts, (3, 0, 0));
    for (_, name) in &asked {
        assert_eq!(directory.iter().filter(|n| *n == name).count(), 1);
    }
}

#[test]
fn inputs_without_a_name_or_a_free_name_are_skipped() {
    let mut directory = names(&["full.mkv"]);
    for i in 0..1000u32 {
        directory.push(format!("full_{}.mkv", i));
    }
    let (asked, counts) =
        run_batch(&["/in/..", "/in/full.mkv", "/", "/in/free.mkv"], &mut directory, &[]);
    assert_eq!(asked, vec![(3, "free.mkv".to_string())]);
    assert_eq!(counts, (1, 0, 3));
}

#[test]
fn an_empty_batch_is_finished_at_once() {
    let (batch, action) = Batch::begin(0);
    assert_eq!(action, BatchAction::Finished);
    assert!(batch.is_finished());
    assert_eq!(batch.counts(), (0, 0, 0));
    let (batch, action) = batch.step(BatchEvent::Converted { ok: true });
    assert_eq!(action, BatchAction::Finished);
    assert_eq!(batch.counts(), (0, 0, 0));
}

#[test]
fn a_report_that_was_not_asked_for_changes_nothing() {
    let (batch, action) = Batch::begin(2);
    assert_eq!(action, BatchAction::Inspect { input: 0 });
    let (batch, action) = batch.step(BatchEvent::Converted { ok: false });
    assert_eq!(action, BatchAction::Inspect { input: 0 });
    assert_eq!(batch.counts(), (0, 0, 0));
    let (batch, action) = batch.step(BatchEvent::Inspected {
        file_name: Some("a.mp4".to_string()),
        taken: Vec::new(),
    });
    assert_eq!(action, BatchAction::Convert { input: 0, output_name: "a.mp4".to_string() });
    let (batch, action) = batch.step(BatchEvent::Converted { ok: false });
    assert_eq!(action, BatchAction::Inspect { input: 1 });
    assert_eq!(batch.counts(), (0, 1, 0));
}
