use coctus::ast::{Cmd, ExternalNode, JoinTerm, Stub, VarType, VariableCommand};
use coctus::parser::{
    parse_generator_stub, parse_output_comment, sized_variable, text_block_at, ParseError,
};
use coctus::preprocessor::{transform, Renderable};
use coctus::tokenizer::{tokenize, TokenStream};

fn parse(script: &str) -> Stub {
    parse_generator_stub(script).unwrap()
}

fn vars_of(cmd: &Cmd) -> &Vec<VariableCommand> {
    match cmd {
        Cmd::Read(v) => v,
        Cmd::LoopLine { variables, .. } => variables,
        other => panic!("not a read: {:?}", other),
    }
}

fn only_var(token: &str) -> VariableCommand {
    let stub = parse(&format!("read {}", token));
    assert_eq!(stub.commands.len(), 1);
    let vars = vars_of(&stub.commands[0]);
    assert_eq!(vars.len(), 1);
    vars[0].clone()
}

fn write_lines(cmd: &Cmd) -> (Vec<String>, String) {
    match cmd {
        Cmd::Write { lines, output_comment } => (lines.clone(), output_comment.clone()),
        other => panic!("not a write: {:?}", other),
    }
}

fn tokens_as_strings(script: &str) -> Vec<String> {
    tokenize(script).into_iter().map(|t| t.into_iter().collect()).collect()
}

#[test]
fn tokenize_marks_line_ends() {
    assert_eq!(
        tokens_as_strings("read m:int n:int\nwrite result"),
        vec!["read", "m:int", "n:int", "\n", "write", "result", "\n"]
    );
}

#[test]
fn tokenize_double_space_gives_empty_field() {
    assert_eq!(tokens_as_strings("a  b\r\n\nc\n"), vec!["a", "", "b", "\n", "", "\n", "c", "\n"]);
    assert!(tokenize("").is_empty());
}

#[test]
fn simple_read_and_write() {
    let stub = parse("read m:int n:int\nwrite result");
    assert_eq!(stub.commands.len(), 2);
    let vars = vars_of(&stub.commands[0]);
    assert_eq!(vars.len(), 2);
    assert_eq!(vars[0].ident, "m");
    assert_eq!(vars[0].var_type, VarType::Int);
    assert_eq!(vars[1].ident, "n");
    assert_eq!(vars[1].var_type, VarType::Int);
    assert_eq!(write_lines(&stub.commands[1]), (vec!["result".to_string()], String::new()));
    assert_eq!(stub.statement, "");
}

#[test]
fn write_join_of_two_literals() {
    let stub = parse("write join(\"a\", \"b\")");
    assert_eq!(stub.commands.len(), 1);
    match &stub.commands[0] {
        Cmd::WriteJoin { join_terms, output_comment } => {
            assert_eq!(join_terms.len(), 2);
            assert!(matches!(&join_terms[0], JoinTerm::Literal(t) if t == "a"));
            assert!(matches!(&join_terms[1], JoinTerm::Literal(t) if t == "b"));
            assert_eq!(output_comment, "");
        }
        other => panic!("expected a join, got {:?}", other),
    }
}

#[test]
fn write_join_mixes_variables_and_literals() {
    let stub = parse("write join( x , \"y z\",w)");
    match &stub.commands[0] {
        Cmd::WriteJoin { join_terms, .. } => {
            assert_eq!(join_terms.len(), 3);
            assert!(matches!(&join_terms[0], JoinTerm::Variable(t) if t == "x"));
            assert!(matches!(&join_terms[1], JoinTerm::Literal(t) if t == "y z"));
            assert!(matches!(&join_terms[2], JoinTerm::Variable(t) if t == "w"));
        }
        other => panic!("expected a join, got {:?}", other),
    }
}

#[test]
fn write_join_with_empty_parens_is_plain_text() {
    let stub = parse("write join()");
    assert_eq!(write_lines(&stub.commands[0]).0, vec!["join()".to_string()]);
}

#[test]
fn write_join_with_blank_term_keeps_raw_line() {
    let stub = parse("write join(\"a\",,\"b\")");
    assert_eq!(stub.commands.len(), 1);
    assert_eq!(write_lines(&stub.commands[0]).0, vec!["join(\"a\",,\"b\")".to_string()]);
}

#[test]
fn write_join_without_closing_paren_keeps_collecting() {
    let stub = parse("write join(a\nmore text\n\nwrite x");
    assert_eq!(stub.commands.len(), 2);
    assert_eq!(
        write_lines(&stub.commands[0]).0,
        vec!["join(a".to_string(), "more text".to_string()]
    );
    assert_eq!(write_lines(&stub.commands[1]).0, vec!["x".to_string()]);
}

#[test]
fn write_collects_until_blank_line() {
    let stub = parse("write  hello   world \nsecond line\n\nread x:int");
    assert_eq!(stub.commands.len(), 2);
    assert_eq!(
        write_lines(&stub.commands[0]).0,
        vec!["hello   world".to_string(), "second line".to_string()]
    );
}

#[test]
fn loop_accepts_one_command_only() {
    let r = parse_generator_stub("loop n read x:int read y:int");
    assert!(matches!(r, Err(ParseError::MissingType(t)) if t == "read"));
    let r = parse_generator_stub("loop n x:int write y");
    assert!(matches!(r, Err(ParseError::InvalidLoopBody(t)) if t == "x:int"));
}

#[test]
fn loop_nests_one_command() {
    let stub = parse("loop n\nloop m read x:int\nwrite done");
    assert_eq!(stub.commands.len(), 2);
    match &stub.commands[0] {
        Cmd::Loop { count_var, command } => {
            assert_eq!(count_var, "n");
            match command.as_ref() {
                Cmd::Loop { count_var, command } => {
                    assert_eq!(count_var, "m");
                    assert_eq!(vars_of(command)[0].ident, "x");
                }
                other => panic!("expected a loop, got {:?}", other),
            }
        }
        other => panic!("expected a loop, got {:?}", other),
    }
}

#[test]
fn loopline_reads_its_variables() {
    let stub = parse("loopline n a:word(5) b:bool");
    match &stub.commands[0] {
        Cmd::LoopLine { count_var, variables } => {
            assert_eq!(count_var, "n");
            assert_eq!(variables.len(), 2);
            assert_eq!(variables[0].var_type, VarType::Word);
            assert_eq!(variables[0].max_length.as_deref(), Some("5"));
            assert_eq!(variables[1].var_type, VarType::Bool);
        }
        other => panic!("expected a loopline, got {:?}", other),
    }
}

#[test]
fn output_comment_skips_commented_writes() {
    let stub = parse("write a\n\nOUTPUT\nfirst\n\nwrite b\n\nOUTPUT\nsecond\n");
    assert_eq!(stub.commands.len(), 2);
    assert_eq!(write_lines(&stub.commands[0]).1, "first");
    assert_eq!(write_lines(&stub.commands[1]).1, "second");
}

#[test]
fn output_comment_reaches_into_loops() {
    let stub = parse("loop n write a\n\nOUTPUT\nshown\n");
    match &stub.commands[0] {
        Cmd::Loop { command, .. } => assert_eq!(write_lines(command).1, "shown"),
        other => panic!("expected a loop, got {:?}", other),
    }
}

#[test]
fn input_comment_attaches_by_identifier() {
    let stub = parse("read a:int b:int\nloop n read a:long\nINPUT\na: the first\nnot a pair\nb : second one\n");
    let top = vars_of(&stub.commands[0]);
    assert_eq!(top[0].input_comment, "the first");
    assert_eq!(top[1].input_comment, "second one");
    match &stub.commands[1] {
        Cmd::Loop { command, .. } => assert_eq!(vars_of(command)[0].input_comment, "the first"),
        other => panic!("expected a loop, got {:?}", other),
    }
}

#[test]
fn statement_last_one_wins() {
    let stub = parse("STATEMENT\nfirst  text\nmore\n\nSTATEMENT ignored here\nsecond\n");
    assert_eq!(stub.statement, "second");
    let stub = parse("STATEMENT\nfirst  text\nmore\n");
    assert_eq!(stub.statement, "first  text\nmore");
}

#[test]
fn text_block_is_repeatable() {
    let script = "STATEMENT\nsome  words here\nnext\n\nread x:int";
    let a = parse(script);
    let b = parse(script);
    assert_eq!(a.statement, b.statement);
    assert_eq!(a.statement, "some  words here\nnext");
}

#[test]
fn string_type_with_literal_length() {
    let v = only_var("name:string(40)");
    assert_eq!(v.ident, "name");
    assert_eq!(v.var_type, VarType::String);
    assert_eq!(v.max_length.as_deref(), Some("40"));
}

#[test]
fn word_type_with_variable_length() {
    let v = only_var("name:word(n)");
    assert_eq!(v.var_type, VarType::Word);
    assert_eq!(v.max_length.as_deref(), Some("n"));
}

#[test]
fn int_type_has_no_length() {
    let v = only_var("name:int");
    assert_eq!(v.var_type, VarType::Int);
    assert_eq!(v.max_length, None);
    assert_eq!(v.input_comment, "");
    assert_eq!(only_var("x:float").var_type, VarType::Float);
    assert_eq!(only_var("x:long").var_type, VarType::Long);
    assert_eq!(only_var("x:bool").var_type, VarType::Bool);
}

#[test]
fn parse_errors_name_the_culprit() {
    assert!(matches!(parse_generator_stub("bogus x"), Err(ParseError::UnknownToken(t)) if t == "bogus"));
    assert!(matches!(parse_generator_stub("loop"), Err(ParseError::MissingLoopCount)));
    assert!(matches!(parse_generator_stub("loop n"), Err(ParseError::MissingLoopBody)));
    assert!(matches!(parse_generator_stub("loopline"), Err(ParseError::MissingLooplineCount)));
    assert!(matches!(parse_generator_stub("read"), Err(ParseError::EmptyVariableLine)));
    assert!(matches!(parse_generator_stub("read x"), Err(ParseError::MissingType(t)) if t == "x"));
    assert!(matches!(parse_generator_stub("read x:char"), Err(ParseError::InvalidType(t)) if t == "x:char"));
}

#[test]
fn three_reads_become_one_batch() {
    let mut stub = parse("read a:int\nread b:int\nread c:int\nwrite x");
    transform(&mut stub);
    assert_eq!(stub.commands.len(), 2);
    match &stub.commands[0] {
        Cmd::External(node) => {
            let batch = node.as_read_batch().unwrap();
            assert_eq!(batch.read_lines.len(), 3);
            assert_eq!(batch.read_lines[2][0].ident, "c");
            let start = batch.tail_start.unwrap();
            let tail = &stub.commands[start..];
            assert_eq!(tail.len(), 2);
            assert!(matches!(&tail[1], Cmd::Write { .. }));
        }
        other => panic!("expected a batch, got {:?}", other),
    }
    assert!(matches!(&stub.commands[1], Cmd::Write { .. }));
}

#[test]
fn lone_reads_are_batches_too() {
    let mut stub = parse("read a:int\nwrite x\n\nread b:int");
    transform(&mut stub);
    assert_eq!(stub.commands.len(), 3);
    match &stub.commands[2] {
        Cmd::External(ExternalNode::ReadBatch(b)) => {
            assert_eq!(b.read_lines.len(), 1);
            assert_eq!(b.tail_start, Some(2));
        }
        other => panic!("expected a batch, got {:?}", other),
    }
}

#[test]
fn token_stream_steps() {
    let mut ts = TokenStream::new("ab  c\nd");
    let mut got = Vec::new();
    while let Some(t) = ts.next() {
        got.push(t);
    }
    assert_eq!(got, vec!["ab", "", "c", "\n", "d"]);
}

fn chars(s: &str) -> Vec<char> {
    s.chars().collect()
}

#[test]
fn empty_loop_count_is_missing() {
    assert!(matches!(parse_generator_stub("loop\n\nread x:int"), Err(ParseError::MissingLoopCount)));
    assert!(matches!(parse_generator_stub("loop  n read x:int"), Ok(_)));
    assert!(matches!(
        parse_generator_stub("loopline\n\nx:int"),
        Err(ParseError::MissingLooplineCount)
    ));
}

#[test]
fn type_must_match_whole() {
    assert!(matches!(parse_generator_stub("read x:mystring(5)"), Err(ParseError::InvalidType(t)) if t == "x:mystring(5)"));
    assert!(matches!(parse_generator_stub("read x:string(5)junk"), Err(ParseError::InvalidType(_))));
    assert!(matches!(parse_generator_stub("read x:word()"), Err(ParseError::InvalidType(_))));
}

#[test]
fn sized_variable_reads_groups() {
    let tok = chars("n:word(k)");
    let groups = Some(vec![chars("word(k)"), chars("word"), chars("k")]);
    let v = sized_variable(&tok, &groups).unwrap();
    assert_eq!(v.ident, "n");
    assert_eq!(v.var_type, VarType::Word);
    assert_eq!(v.max_length.as_deref(), Some("k"));
    let partial = Some(vec![chars("word(k)"), chars("word"), chars("k")]);
    assert!(sized_variable(&chars("n:xword(k)"), &partial).is_err());
    assert!(sized_variable(&tok, &None).is_err());
    let odd = Some(vec![chars("word(k)"), chars("char"), chars("k")]);
    assert!(sized_variable(&tok, &odd).is_err());
}

#[test]
fn text_block_at_same_slice_same_text() {
    let tokens = tokenize("STATEMENT x\nab  c\n\nrest");
    let first = text_block_at(&tokens, 0);
    let second = text_block_at(&tokens, 0);
    assert_eq!(first, second);
    assert_eq!(first.0.iter().collect::<String>(), "ab  c");
    assert_eq!(first.1, 9);
}

#[test]
fn output_comment_only_for_uncommented_writes() {
    let cmds = vec![
        Cmd::Write { lines: vec!["a".to_string()], output_comment: "old".to_string() },
        Cmd::Write { lines: vec!["b".to_string()], output_comment: String::new() },
        Cmd::Read(vec![]),
    ];
    let out = parse_output_comment(cmds, &"new".to_string());
    assert_eq!(out.len(), 3);
    assert_eq!(write_lines(&out[0]).1, "old");
    assert_eq!(write_lines(&out[1]).1, "new");
    assert!(matches!(&out[2], Cmd::Read(v) if v.is_empty()));
}
