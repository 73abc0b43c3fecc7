use kerblam::options::Pipe;
use kerblam::options::description_text_box;
use kerblam::options::PipeDescription;

#[test]
fn one_piece_is_a_bare_header() {
    let d = PipeDescription::from_text_box(" Run the analysis\nend to end ".to_string());
    assert_eq!(d.header, "Run the analysis end to end".to_string());
    assert!(d.body.is_none());
}

#[test]
fn blank_lines_separate_header_and_body() {
    let d = PipeDescription::from_text_box(
        "Process the csv\n\nFirst paragraph.\n\nSecond paragraph.".to_string(),
    );
    assert_eq!(d.header, "Process the csv".to_string());
    assert_eq!(
        d.body,
        Some("First paragraph.\nSecond paragraph.".to_string())
    );
}

#[test]
fn long_description_assembles_the_marker_line() {
    let pipe = Pipe {
        pipe_path: "/w/process.sh".to_string(),
        env_path: Some("/e/default.dockerfile".to_string()),
    };
    let desc = PipeDescription {
        header: "Process data".to_string(),
        body: Some("More words.".to_string()),
    };
    let text = pipe.long_description(Some(desc));
    assert_eq!(
        text,
        format!(
            "{}{} process :: Process data\nMore words.",
            "\u{1f41f}", "\u{1f4dc}"
        )
    );
    let bare = Pipe { pipe_path: "/w/other.sh".to_string(), env_path: None };
    assert_eq!(
        bare.long_description(None),
        "No description found.".to_string()
    );
}

#[test]
fn local_pipe_without_body_gets_plain_markers() {
    let pipe = Pipe { pipe_path: "/w/clean.makefile".to_string(), env_path: None };
    let desc = PipeDescription { header: "Tidy up".to_string(), body: None };
    assert_eq!(
        pipe.long_description(Some(desc)),
        format!("{}{} clean :: Tidy up", "\u{25fe}", "\u{25fe}")
    );
}

#[test]
fn text_box_collects_marked_lines() {
    let lines: Vec<String> = vec![
        "#!/bin/bash".to_string(),
        "#? Run the analysis".to_string(),
        "  #?#? indented and doubled".to_string(),
        "echo hi".to_string(),
    ];
    assert_eq!(
        description_text_box(&lines),
        " Run the analysis\n indented and doubled\n".to_string()
    );
}
