use keep_a_changelog_parser::parser::{process_idle, Parser, State};
use keep_a_changelog_parser::{Diagnostics, MdEvent, MdTag, Span};

fn dummy_file_id() -> codespan::FileId {
    let mut files = codespan::Files::new();
    files.add("asd", "fgh")
}

#[test]
fn do_nothing_until_level_2_header() {
    let inputs = vec![MdEvent::SoftBreak, MdEvent::Text(b"asdf".to_vec())];

    for event in inputs {
        let mut state = State { file_id: dummy_file_id(), releases: Vec::new() };
        let mut diags = Diagnostics::new();

        let new_parse_state = Parser::default().process(
            event,
            Span { start: 0, end: 0 },
            &mut state,
            &mut diags,
        );

        if let Some(d) = diags.diagnostics().first() {
            panic!("{:?}", d);
        }
        assert_eq!(new_parse_state, Parser::default());
    }
}

#[test]
fn idle_plus_lvl2_header_starts_reading_header() {
    let event = MdEvent::Start(MdTag::Heading(2));
    let span = Span { start: 0, end: 0 };
    let should_be = Parser::ReadingHeader { buffer: vec![(event.clone(), span)] };

    let got = process_idle(event, span);

    assert_eq!(got, should_be);
}
