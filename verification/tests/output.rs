use luty::output::{usable_suggested_name, NamerStep, NamingError, OutputNamer};
use std::collections::HashSet;

fn place(directory: &str, names: &[&str], existing: &[&str]) -> Result<Vec<String>, NamingError> {
    let existing: HashSet<String> = existing.iter().map(|s| s.to_string()).collect();
    let mut namer = OutputNamer::new(directory.to_string());
    let mut paths = Vec::new();
    for name in names {
        let mut step = NamerStep::Probe(namer.begin(name)?);
        loop {
            match step {
                NamerStep::Probe(path) => {
                    let on_disk = existing.contains(&path);
                    assert!(namer.can_answer(on_disk));
                    step = namer.answer(on_disk);
                }
                NamerStep::Chosen(path) => {
                    paths.push(path);
                    break;
                }
            }
        }
    }
    Ok(paths)
}

#[test]
fn keeps_free_names_and_numbers_taken_ones() {
    let paths = place(
        "/out",
        &["a.png", "a.png", "b.jpg", "a.png", "noext", ".hidden"],
        &["/out/b.jpg", "/out/b-2.jpg", "/out/a-3.png"],
    )
    .unwrap();
    assert_eq!(
        paths,
        vec![
            "/out/a.png",
            "/out/a-2.png",
            "/out/b-3.jpg",
            "/out/a-4.png",
            "/out/noext",
            "/out/.hidden",
        ]
    );
    let paths = place("/", &["x.tar.gz", "x.tar.gz", "y.", "y."], &[]).unwrap();
    assert_eq!(paths, vec!["/x.tar.gz", "/x.tar-2.gz", "/y.", "/y-2."]);
    let paths = place("/out", &["noext", "noext", ".hidden", ".hidden"], &[]).unwrap();
    assert_eq!(paths, vec!["/out/noext", "/out/noext-2.png", "/out/.hidden", "/out/.hidden-2.png"]);
}

#[test]
fn refuses_names_with_paths() {
    for bad in ["", ".", "..", "a/b.png", "a/", "/abs.png"] {
        assert_eq!(place("/out", &["ok.png", bad], &[]), Err(NamingError::InvalidName), "{}", bad);
    }
    assert_eq!(NamingError::InvalidName.message(), "An output filename contained an invalid path");
}

#[test]
fn suggested_names_need_text() {
    assert_eq!(usable_suggested_name(Some(String::from(" a.png"))), Some(String::from(" a.png")));
    assert_eq!(usable_suggested_name(Some(String::from(" \t"))), None);
    assert_eq!(usable_suggested_name(None), None);
}
