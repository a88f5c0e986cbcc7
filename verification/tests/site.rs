use foxmd::{
    appendix_html, generate_toc, get_dir_depth, has_fmd_argument, is_fmd_file, relink,
    table_of_contents, CommandLineArguments, FmdFile, DEFINITION, JOBS,
};

fn strings(v: &[&str]) -> Vec<String> {
    v.iter().map(|s| s.to_string()).collect()
}

#[test]
fn toc_lists_links() {
    let toc = generate_toc(vec![
        ("Intro".to_string(), "ch1".to_string()),
        (String::new(), "ch2".to_string()),
    ]);
    assert_eq!(
        toc,
        "<nav class=\"table-of-contents\">\n    <ol><li class=\"toc-content\"><a href=\"ch1.html\">Intro</a></li><li class=\"toc-content\"><a href=\"ch2.html\">ch2</a></li>    </ol>\n    </nav>"
    );
}

#[test]
fn toc_is_sorted_by_file() {
    let toc = table_of_contents(
        vec![
            ("B".to_string(), "ch2_b".to_string()),
            ("A".to_string(), "ch1_a".to_string()),
        ],
        true,
    );
    let expected = generate_toc(vec![
        ("A".to_string(), "ch1_a".to_string()),
        ("B".to_string(), "ch2_b".to_string()),
        ("Appendix A".to_string(), "appendix_a".to_string()),
    ]);
    assert_eq!(toc, expected);
    let without = table_of_contents(vec![("B".to_string(), "b".to_string())], false);
    assert_eq!(without, generate_toc(vec![("B".to_string(), "b".to_string())]));
}

#[test]
fn appendix_lists_definitions() {
    let defs = vec![DEFINITION { word: "fox".to_string(), text: "an animal".to_string() }];
    assert_eq!(
        appendix_html(&defs),
        "DEFINITIONS: <br><span class=\"definition-word\"><b>fox: :  </b></span><span class=\"definition-text\">an animal</span><br>"
    );
    assert_eq!(appendix_html(&Vec::new()), "DEFINITIONS: <br>");
}

#[test]
fn dir_depth_counts_separators() {
    assert_eq!(get_dir_depth("./a/b"), 2);
    assert_eq!(get_dir_depth(".\\a"), 1);
    assert_eq!(get_dir_depth("a"), 0);
}

#[test]
fn relink_moves_links_up() {
    let html = "<link href=\"style.css\"><li class=\"toc-content\"><a href=\"x.html\">";
    assert_eq!(relink(html, 1), html);
    assert_eq!(
        relink(html, 3),
        "<link href=\"../../style.css\"><li class=\"toc-content\"><a href=\"../../x.html\">"
    );
}

#[test]
fn fmd_files_are_recognised() {
    assert!(is_fmd_file(false, "intro.fmd"));
    assert!(!is_fmd_file(true, "intro.fmd"));
    assert!(!is_fmd_file(false, ".fmd"));
    assert!(!is_fmd_file(false, "intro.FMD"));
    assert!(!is_fmd_file(false, "intro.md"));
}

#[test]
fn command_line_prefers_arguments() {
    let args = strings(&["prog", "A.FMD", "x.txt"]);
    assert!(has_fmd_argument(&args));
    let cla = CommandLineArguments::new(args.clone(), strings(&["./b.fmd"]));
    assert_eq!(cla.fmd_files, strings(&["A.FMD"]));
    let cla = CommandLineArguments::new(strings(&["prog"]), strings(&["./B.FMD", "./c.txt"]));
    assert_eq!(cla.fmd_files, strings(&["./b.fmd"]));
    assert_eq!(cla.getFMDFiles(args), strings(&["A.FMD"]));
}

#[test]
fn jobs_count_added_files() {
    let jobs = JOBS::new();
    let jobs = jobs.addJob(FmdFile { path: "./a.fmd".to_string(), file_name: "a.fmd".to_string() });
    let _jobs = jobs.addJob(FmdFile { path: "./b.fmd".to_string(), file_name: "b.fmd".to_string() });
}
