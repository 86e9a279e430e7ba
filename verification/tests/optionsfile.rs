use optique::model::options::OptionSet;
use optique::optionsfile::{render, SavedOptionsFile};
use optique::sorted::SortedSet;

fn set(items: &[&str]) -> OptionSet {
    let list: Vec<String> = items.iter().map(|s| s.to_string()).collect();
    SortedSet::from_list(&list)
}

#[test]
fn a_rendered_file_reads_back() {
    let complete: Vec<String> = ["A", "B", "DOCS"].iter().map(|s| s.to_string()).collect();
    let text = render("port-1.0", &complete, &set(&["A", "DOCS"]));
    let saved = SavedOptionsFile::parse(&text);
    assert_eq!(saved.options_read, "port-1.0");
    assert_eq!(saved.complete, complete);
    assert!(saved.set.equals(&set(&["A", "DOCS"])));
    assert!(saved.unset.equals(&set(&["B"])));
    assert!(saved.knows("B"));
    assert!(!saved.knows("X11"));
}

#[test]
fn a_rendered_file_is_what_make_config_writes() {
    let complete: Vec<String> = ["A", "B"].iter().map(|s| s.to_string()).collect();
    assert_eq!(
        render("port-1.0", &complete, &set(&["B"])),
        "# This file is auto-generated by 'make config'.\n\
         # Options for port-1.0\n\
         _OPTIONS_READ=port-1.0\n\
         _FILE_COMPLETE_OPTIONS_LIST=A B\n\
         OPTIONS_FILE_UNSET+=A\n\
         OPTIONS_FILE_SET+=B\n"
    );
}
