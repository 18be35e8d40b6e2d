use pdd::arguments::{
    Arguments, BuildError, Operation, OperationBuilder, Output, ParseError, ParseErrorKind,
};

fn args(list: &[&str]) -> Vec<String> {
    list.iter().map(|s| s.to_string()).collect()
}

fn refused(list: &[&str]) -> ParseError {
    Arguments::parse(&args(list)).unwrap_err()
}

#[test]
fn builder_starts_with_the_defaults() {
    let builder = OperationBuilder::default();
    assert_eq!(builder.input_file, None);
    assert!(builder.outputs.is_empty());
    assert!(!builder.is_redirected);
    assert_eq!(builder.block_size, 1024);
    assert_eq!(builder.count, 0);
}

#[test]
fn builder_collects_the_fields() {
    let mut builder = OperationBuilder::default();
    builder.input_file("first.img".to_string());
    builder.input_file("boot.img".to_string());
    builder.output_file("/dev/sda1".to_string());
    builder.output_socket("backup", 9000);
    builder.output_http("PUT", "http://store/boot");
    builder.block_size(4096);
    builder.count(7);
    builder.is_redirected();
    let op = builder.build().unwrap();
    assert_eq!(
        op,
        Operation {
            input_file: "boot.img".to_string(),
            outputs: vec![
                Output::File("/dev/sda1".to_string()),
                Output::Socket("backup".to_string(), 9000),
                Output::Http { method: "PUT".to_string(), url: "http://store/boot".to_string() },
            ],
            block_size: 4096,
            count: 7,
            is_redirected: true,
        }
    );
    assert!(op.is_valid());
}

#[test]
fn redirect_mark_switches_back() {
    let mut builder = OperationBuilder::default();
    builder.is_redirected();
    assert!(builder.is_redirected);
    builder.is_redirected();
    assert!(!builder.is_redirected);
}

#[test]
fn build_needs_an_input() {
    let mut builder = OperationBuilder::default();
    builder.output_file("out".to_string());
    assert_eq!(builder.build(), Err(BuildError::MissingInput));
    // the input is looked at before the outputs
    assert_eq!(OperationBuilder::default().build(), Err(BuildError::MissingInput));
}

#[test]
fn build_needs_an_output() {
    let mut builder = OperationBuilder::default();
    builder.input_file("in".to_string());
    assert_eq!(builder.build(), Err(BuildError::NoOutputs));
}

#[test]
fn build_needs_a_block_size() {
    let mut builder = OperationBuilder::default();
    builder.input_file("in".to_string());
    builder.output_file("out".to_string());
    builder.block_size(0);
    assert_eq!(builder.build(), Err(BuildError::InvalidBlockSize));
}

#[test]
fn build_errors_in_words() {
    assert_eq!(BuildError::MissingInput.message(), "Operation is missing input file");
    assert_eq!(BuildError::NoOutputs.message(), "Operation must have at least one output");
    assert_eq!(
        BuildError::InvalidBlockSize.message(),
        "Operation must have a block size above zero"
    );
}

#[test]
fn operation_without_outputs_is_not_valid() {
    let op = Operation {
        input_file: "in".to_string(),
        outputs: vec![],
        block_size: 1024,
        count: 0,
        is_redirected: false,
    };
    assert!(!op.is_valid());
    let op = Operation {
        input_file: "in".to_string(),
        outputs: vec![Output::File("out".to_string())],
        block_size: 0,
        count: 0,
        is_redirected: false,
    };
    assert!(!op.is_valid());
}

#[test]
fn parses_several_operations() {
    let parsed = Arguments::parse(&args(&[
        "if=boot.img",
        "of=/dev/sda1",
        "of=/dev/sdb1",
        "--",
        "if=root.img",
        "of=/dev/sda2",
        "bs=4096",
        "count=10",
        "--",
        "if=stdout.log",
        "os=localhost:9000",
        "redir=1",
    ]))
    .unwrap();
    assert_eq!(
        parsed.operations,
        vec![
            Operation {
                input_file: "boot.img".to_string(),
                outputs: vec![
                    Output::File("/dev/sda1".to_string()),
                    Output::File("/dev/sdb1".to_string()),
                ],
                block_size: 1024,
                count: 0,
                is_redirected: false,
            },
            Operation {
                input_file: "root.img".to_string(),
                outputs: vec![Output::File("/dev/sda2".to_string())],
                block_size: 4096,
                count: 10,
                is_redirected: false,
            },
            Operation {
                input_file: "stdout.log".to_string(),
                outputs: vec![Output::Socket("localhost".to_string(), 9000)],
                block_size: 1024,
                count: 0,
                is_redirected: true,
            },
        ]
    );
}

#[test]
fn empty_command_line_has_no_operations() {
    assert_eq!(Arguments::parse(&Vec::new()).unwrap().operations, vec![]);
    assert_eq!(Arguments::default().operations, vec![]);
}

#[test]
fn white_space_round_key_and_value_is_dropped() {
    let parsed = Arguments::parse(&args(&[" if = a b.img ", "\tof=\u{a0}out.img\u{3000}"])).unwrap();
    assert_eq!(parsed.operations.len(), 1);
    assert_eq!(parsed.operations[0].input_file, "a b.img");
    assert_eq!(parsed.operations[0].outputs, vec![Output::File("out.img".to_string())]);
}

#[test]
fn value_may_hold_equal_signs() {
    let parsed = Arguments::parse(&args(&["if=a=b", "of=c"])).unwrap();
    assert_eq!(parsed.operations[0].input_file, "a=b");
}

#[test]
fn keys_are_not_folded() {
    assert_eq!(refused(&["IF=a"]), ParseError { index: 0, kind: ParseErrorKind::UnexpectedKey });
}

#[test]
fn count_has_a_short_form() {
    let parsed = Arguments::parse(&args(&["if=a", "of=b", "c=3"])).unwrap();
    assert_eq!(parsed.operations[0].count, 3);
    let parsed = Arguments::parse(&args(&["if=a", "of=b", "c=3", "count=+5"])).unwrap();
    assert_eq!(parsed.operations[0].count, 5);
}

#[test]
fn socket_without_host_is_local() {
    let parsed = Arguments::parse(&args(&["if=a", "os=:9001", "os=backup:65535"])).unwrap();
    assert_eq!(
        parsed.operations[0].outputs,
        vec![
            Output::Socket("localhost".to_string(), 9001),
            Output::Socket("backup".to_string(), 65535),
        ]
    );
}

#[test]
fn socket_splits_at_the_first_colon() {
    assert_eq!(
        refused(&["if=a", "os=host:90:1"]),
        ParseError { index: 1, kind: ParseErrorKind::InvalidPort }
    );
}

#[test]
fn http_output_has_method_and_url() {
    let parsed =
        Arguments::parse(&args(&["if=a", "ohttp=POST;http://store:8080/blocks;v=1"])).unwrap();
    assert_eq!(
        parsed.operations[0].outputs,
        vec![Output::Http {
            method: "POST".to_string(),
            url: "http://store:8080/blocks;v=1".to_string()
        }]
    );
}

#[test]
fn separator_closes_the_operation() {
    assert_eq!(
        refused(&["if=a", "--", "if=b", "of=c"]),
        ParseError { index: 1, kind: ParseErrorKind::Build(BuildError::NoOutputs) }
    );
    assert_eq!(
        refused(&["--"]),
        ParseError { index: 0, kind: ParseErrorKind::Build(BuildError::MissingInput) }
    );
    assert_eq!(
        refused(&["if=a", "of=b", "bs=0", "--"]),
        ParseError { index: 3, kind: ParseErrorKind::Build(BuildError::InvalidBlockSize) }
    );
}

#[test]
fn last_operation_ends_with_the_list() {
    assert_eq!(
        refused(&["if=a", "of=b", "--", "if=c"]),
        ParseError { index: 4, kind: ParseErrorKind::Build(BuildError::NoOutputs) }
    );
}

#[test]
fn last_operation_without_input_is_dropped() {
    let parsed = Arguments::parse(&args(&["if=a", "of=b", "--", "of=c", "bs=12"])).unwrap();
    assert_eq!(parsed.operations.len(), 1);
    assert_eq!(parsed.operations[0].input_file, "a");
    assert_eq!(Arguments::parse(&args(&["of=c"])).unwrap().operations, vec![]);
}

#[test]
fn separator_starts_from_the_defaults() {
    let parsed =
        Arguments::parse(&args(&["if=a", "of=b", "bs=9", "redir=1", "--", "if=c", "of=d"])).unwrap();
    assert_eq!(parsed.operations[1].block_size, 1024);
    assert!(!parsed.operations[1].is_redirected);
    assert_eq!(parsed.operations[1].outputs, vec![Output::File("d".to_string())]);
}

#[test]
fn argument_without_equal_sign_is_refused() {
    assert_eq!(
        refused(&["if=a", "verbose"]),
        ParseError { index: 1, kind: ParseErrorKind::ExpectedKeyValue }
    );
    assert_eq!(refused(&["---"]), ParseError { index: 0, kind: ParseErrorKind::ExpectedKeyValue });
    assert_eq!(refused(&[" -- "]), ParseError { index: 0, kind: ParseErrorKind::ExpectedKeyValue });
}

#[test]
fn unknown_key_is_refused() {
    assert_eq!(
        refused(&["if=a", "seek=3"]),
        ParseError { index: 1, kind: ParseErrorKind::UnexpectedKey }
    );
    assert_eq!(refused(&["=3"]), ParseError { index: 0, kind: ParseErrorKind::UnexpectedKey });
}

#[test]
fn socket_needs_host_and_port() {
    assert_eq!(
        refused(&["os=localhost"]),
        ParseError { index: 0, kind: ParseErrorKind::ExpectedHostPort }
    );
    for port in ["", "x", "65536", "-1", "80 x", "8 0", " 80"] {
        assert_eq!(
            refused(&[&format!("os=localhost:{}", port)]),
            ParseError { index: 0, kind: ParseErrorKind::InvalidPort }
        );
    }
    // white space at the end of the value goes before the port is read
    let parsed = Arguments::parse(&args(&["if=a", "os=localhost:80 "])).unwrap();
    assert_eq!(parsed.operations[0].outputs, vec![Output::Socket("localhost".to_string(), 80)]);
}

#[test]
fn http_needs_method_and_url() {
    assert_eq!(
        refused(&["if=a", "of=b", "ohttp=http://store"]),
        ParseError { index: 2, kind: ParseErrorKind::ExpectedMethodUrl }
    );
}

#[test]
fn numbers_must_be_decimal_and_fit() {
    for value in ["", "+", "-", "-1", "1k", "0x10", "1.5", "18446744073709551616", "1 2"] {
        assert_eq!(
            refused(&[&format!("bs={}", value)]),
            ParseError { index: 0, kind: ParseErrorKind::InvalidBlockSize }
        );
        assert_eq!(
            refused(&["if=a", &format!("count={}", value)]),
            ParseError { index: 1, kind: ParseErrorKind::InvalidCount }
        );
    }
    let parsed =
        Arguments::parse(&args(&["if=a", "of=b", "bs=18446744073709551615", "c=0007"])).unwrap();
    assert_eq!(parsed.operations[0].block_size, u64::MAX);
    assert_eq!(parsed.operations[0].count, 7);
}

#[test]
fn every_parsed_operation_is_valid() {
    let parsed = Arguments::parse(&args(&[
        "if=a", "of=b", "--", "if=c", "os=h:1", "bs=1", "--", "if=d", "ohttp=GET;u",
    ]))
    .unwrap();
    assert_eq!(parsed.operations.len(), 3);
    assert!(parsed.operations.iter().all(|op| op.is_valid()));
}
