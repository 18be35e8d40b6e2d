use pdd::argument::{Argies, Argument, ArgumentError, ArgumentErrorKind};

fn args(list: &[&str]) -> Vec<String> {
    list.iter().map(|s| s.to_string()).collect()
}

#[test]
fn argies_start_with_the_defaults() {
    assert_eq!(
        Argies::default(),
        Argies { input_file: None, output_files: vec![], block_size: 1024, block_count: 0 }
    );
}

#[test]
fn reads_each_kind_of_argument() {
    assert_eq!(Argument::read("if=a.img"), Ok(Some(Argument::InputFile("a.img".to_string()))));
    assert_eq!(Argument::read("of=b.img"), Ok(Some(Argument::OutputFile("b.img".to_string()))));
    assert_eq!(Argument::read("bs=512"), Ok(Some(Argument::BlockSize(512))));
    assert_eq!(Argument::read("count=3"), Ok(Some(Argument::BlockCount(3))));
}

#[test]
fn keys_and_values_are_read_in_lower_case() {
    assert_eq!(Argument::read("IF=Boot.IMG"), Ok(Some(Argument::InputFile("boot.img".to_string()))));
    assert_eq!(Argument::read("Of=/DEV/SDA1"), Ok(Some(Argument::OutputFile("/dev/sda1".to_string()))));
    assert_eq!(Argument::read("BS=2048"), Ok(Some(Argument::BlockSize(2048))));
    // only the capitals of ASCII are folded
    assert_eq!(
        Argument::read("of=\u{c4}Z[@"),
        Ok(Some(Argument::OutputFile("\u{c4}z[@".to_string())))
    );
}

#[test]
fn arguments_that_say_nothing_are_passed_over() {
    assert_eq!(Argument::read("pdd"), Ok(None));
    assert_eq!(Argument::read("--"), Ok(None));
    assert_eq!(Argument::read("seek=3"), Ok(None));
    assert_eq!(Argument::read("c=3"), Ok(None));
    assert_eq!(Argument::read(" if=a"), Ok(None));
    assert_eq!(Argument::read(""), Ok(None));
}

#[test]
fn numbers_that_cannot_be_read() {
    assert_eq!(Argument::read("bs=1k"), Err(ArgumentErrorKind::InvalidBlockSize));
    assert_eq!(Argument::read("bs="), Err(ArgumentErrorKind::InvalidBlockSize));
    assert_eq!(Argument::read("bs= 1"), Err(ArgumentErrorKind::InvalidBlockSize));
    assert_eq!(Argument::read("count=-1"), Err(ArgumentErrorKind::InvalidBlockCount));
    assert_eq!(
        Argument::read("count=340282366920938463463374607431768211456"),
        Err(ArgumentErrorKind::InvalidBlockCount)
    );
}

#[test]
fn apply_replaces_and_collects() {
    let mut argies = Argies::default();
    argies.apply(Argument::InputFile("a".to_string()));
    argies.apply(Argument::OutputFile("b".to_string()));
    argies.apply(Argument::InputFile("c".to_string()));
    argies.apply(Argument::OutputFile("d".to_string()));
    argies.apply(Argument::BlockSize(8));
    argies.apply(Argument::BlockCount(9));
    assert_eq!(
        argies,
        Argies {
            input_file: Some("c".to_string()),
            output_files: vec!["b".to_string(), "d".to_string()],
            block_size: 8,
            block_count: 9,
        }
    );
}

#[test]
fn parses_a_command_line() {
    let line = args(&["pdd", "IF=In.IMG", "of=out1", "of=OUT2", "bs=4096", "count=2", "-v"]);
    assert_eq!(Argument::inputs(&line), vec!["in.img".to_string()]);
    assert_eq!(
        Argument::parse(&line, &vec![true]),
        Ok(Argies {
            input_file: Some("in.img".to_string()),
            output_files: vec!["out1".to_string(), "out2".to_string()],
            block_size: 4096,
            block_count: 2,
        })
    );
}

#[test]
fn input_must_be_on_disk() {
    let line = args(&["if=a", "of=b"]);
    let missing = ArgumentError { index: 0, kind: ArgumentErrorKind::InputMissing };
    assert_eq!(Argument::parse(&line, &vec![false]), Err(missing));
    // an input that nothing was said of counts as not found
    assert_eq!(Argument::parse(&line, &vec![]), Err(missing));
}

#[test]
fn each_input_is_looked_for_in_turn() {
    let line = args(&["if=a", "bs=1", "if=b", "if=c"]);
    assert_eq!(
        Argument::inputs(&line),
        vec!["a".to_string(), "b".to_string(), "c".to_string()]
    );
    assert_eq!(
        Argument::parse(&line, &vec![true, false, true]),
        Err(ArgumentError { index: 2, kind: ArgumentErrorKind::InputMissing })
    );
    let parsed = Argument::parse(&line, &vec![true, true, true]).unwrap();
    assert_eq!(parsed.input_file, Some("c".to_string()));
    assert_eq!(parsed.block_size, 1);
}

#[test]
fn first_fault_in_the_list_wins() {
    let line = args(&["if=a", "bs=x", "if=b"]);
    assert_eq!(Argument::inputs(&line), vec!["a".to_string()]);
    assert_eq!(
        Argument::parse(&line, &vec![true]),
        Err(ArgumentError { index: 1, kind: ArgumentErrorKind::InvalidBlockSize })
    );
    assert_eq!(
        Argument::parse(&line, &vec![false]),
        Err(ArgumentError { index: 0, kind: ArgumentErrorKind::InputMissing })
    );
    assert_eq!(
        Argument::parse(&args(&["count=", "if=a"]), &vec![true]),
        Err(ArgumentError { index: 0, kind: ArgumentErrorKind::InvalidBlockCount })
    );
}

#[test]
fn command_line_without_input_is_refused() {
    assert_eq!(
        Argument::parse(&args(&["pdd", "of=b"]), &vec![]),
        Err(ArgumentError { index: 2, kind: ArgumentErrorKind::NoInput })
    );
    assert_eq!(
        Argument::parse(&Vec::new(), &vec![]),
        Err(ArgumentError { index: 0, kind: ArgumentErrorKind::NoInput })
    );
}

#[test]
fn outputs_are_optional() {
    let parsed = Argument::parse(&args(&["if=a"]), &vec![true]).unwrap();
    assert!(parsed.output_files.is_empty());
    assert_eq!(parsed.block_size, 1024);
    assert_eq!(parsed.block_count, 0);
}
