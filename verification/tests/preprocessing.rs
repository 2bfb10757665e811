use arma_config::defines::Defines;
use arma_config::tokens::{Token, TokenPair};
use arma_config::preprocessor::{ErrorKind, Preprocessor};
use arma_config::render::render;
use arma_config::tokenizer::tokenize;

fn run(content: &str, path: &str) -> String {
    let tokens = tokenize(content, path).unwrap();
    let mut defines = Defines::new();
    let preprocessor = Preprocessor::execute(&tokens, &mut defines).unwrap();
    render(preprocessor.output()).export()
}

#[test]
fn define() {
    let content = "\n#define affirmative true\nvalue = affirmative;\n";
    assert_eq!("\nvalue = true;\n", run(content, ""));
}

#[test]
fn main_undefine() {
    let content = "\n#define affirmative true\n#undef affirmative\nvalue = affirmative;\n";
    assert_eq!("\nvalue = affirmative;\n", run(content, ""));
}

#[test]
fn ifdef_true() {
    let content = "\n#define affirmative true\nvalue = affirmative;\n#ifdef affirmative\ndefined = true;\n#else\ndefined = false;\n#endif\n";
    assert_eq!("\nvalue = true;\ndefined = true;\n", run(content, ""));
}

#[test]
fn ifdef_false() {
    let content = "\n#ifdef affirmative\ndefined = true;\n#else\ndefined = false;\n#endif\n";
    assert_eq!("\ndefined = false;\n", run(content, ""));
}

#[test]
fn ifndef_true() {
    let content = "\n#ifndef affirmative\nundefined = true;\n#else\nundefined = false;\n#endif\n";
    assert_eq!("\nundefined = true;\n", run(content, ""));
}

#[test]
fn ifndef_false() {
    let content = "\n#define affirmative true\nvalue = affirmative;\n#ifndef affirmative\nundefined = true;\n#else\nundefined = false;\n#endif\n";
    assert_eq!("\nvalue = true;\nundefined = false;\n", run(content, ""));
}

#[test]
fn main_simple_define() {
    let rendered = run(
        "#define brett_greeting \"hi brett\"\n\ngreeting = brett_greeting;\n",
        "test_simple_define",
    );
    assert_eq!(rendered, "\ngreeting = \"hi brett\";\n");
}

#[test]
fn main_nested_define() {
    let rendered = run(
        "#define NAME brett\n#define HI \"hi NAME\"\n\ngreeting = HI;\n",
        "test_nested_define",
    );
    assert_eq!(rendered, "\ngreeting = \"hi brett\";\n");
}

#[test]
fn chained_define() {
    let rendered = run(
        "#define NAME HEMTT\n#define SALUTATION Mr.\n#define HI \"Hi SALUTATION NAME\"\n\ngreeting = HI;\n",
        "test_chained_define",
    );
    assert_eq!(rendered, "\ngreeting = \"Hi Mr. HEMTT\";\n");
}

#[test]
fn define_call() {
    let rendered = run(
        "\n#define SAY_HI(NAME) Hi NAME\n\nvalue = \"SAY_HI(HEMTT)\";\n",
        "test_define_call",
    );
    assert_eq!(rendered, "\n\nvalue = \"Hi HEMTT\";\n");
}

#[test]
fn recursive() {
    let rendered = run(
        "\n#define ADD_PERIOD(NAME) NAME.\n#define MR(NAME) Mr. ADD_PERIOD(NAME)\n#define SAY_HI(NAME) Hi MR(NAME)\n\nvalue = \"SAY_HI(HEMTT)\";\n",
        "test_recursive",
    );
    assert_eq!(rendered, "\n\nvalue = \"Hi Mr. HEMTT.\";\n");
}

#[test]
fn recursive2() {
    let rendered = run(
        "\n#define ADD_PERIOD(NAME) NAME.\n#define MR(NAME) Mr. NAME\n#define SAY_HI(NAME) Hi MR(ADD_PERIOD(NAME))\n\nvalue = \"SAY_HI(HEMTT)\";\n",
        "test_recursive2",
    );
    assert_eq!(rendered, "\n\nvalue = \"Hi Mr. HEMTT.\";\n");
}

#[test]
fn quote() {
    let rendered = run("\n#define QUOTE(s) #s\nvalue = QUOTE(HEMTT);\n", "test_recursive2");
    assert_eq!(rendered, "\nvalue = \"HEMTT\";\n");
}

#[test]
fn mod_simple_define() {
    let rendered = run(
        "#define brett_greeting \"hi brett\"\n\ngreeting = brett_greeting;\n",
        "test_simple_define",
    );
    println!("{:?}", rendered);
}

#[test]
fn mod_nested_define() {
    let rendered = run(
        "#define NAME brett\n#define HI \"hi NAME\"\n\ngreeting = HI;\n",
        "test_simple_define",
    );
    println!("{:?}", rendered);
}

#[test]
fn object_like_macro() {
    let content = "#define AFFIRM true\nvalue = AFFIRM;\n";
    assert_eq!("value = true;\n", run(content, ""));
}

#[test]
fn chained_macros() {
    let content = "#define NAME BRETT\n#define SALUT Mr.\n#define HI \"Hi SALUT NAME\"\ngreeting = HI;\n";
    assert_eq!("greeting = \"Hi Mr. BRETT\";\n", run(content, ""));
}

#[test]
fn undef_then_ifdef() {
    let content = "#define A true\n#undef A\n#ifdef A\nx = 1;\n#else\nx = 0;\n#endif\n";
    assert_eq!("x = 0;\n", run(content, ""));
}

#[test]
fn function_macro_single_argument() {
    let content = "#define SAY_HI(N) Hi N\nv = \"SAY_HI(John)\";\n";
    assert_eq!("v = \"Hi John\";\n", run(content, ""));
}

#[test]
fn function_macro_two_arguments() {
    let content = "#define SAY_HI(FIRST,LAST) Hi FIRST LAST\nv = \"SAY_HI(John,Smith)\";\n";
    assert_eq!("v = \"Hi John Smith\";\n", run(content, ""));
}

#[test]
fn recursive_function_macros() {
    let content = "#define ADD_PERIOD(N) N.\n#define MR(N) Mr. N\n#define SAY_HI(N) Hi MR(ADD_PERIOD(N))\nv = \"SAY_HI(John)\";\n";
    assert_eq!("v = \"Hi Mr. John.\";\n", run(content, ""));
}

#[test]
fn stringification() {
    let content = "#define QUOTE(s) #s\nv = QUOTE(HEMTT);\n";
    assert_eq!("v = \"HEMTT\";\n", run(content, ""));
}

#[test]
fn unknown_directive_errors() {
    let tokens = tokenize("#nonsense x\n", "p").unwrap();
    let mut defines = Defines::new();
    let err = Preprocessor::execute(&tokens, &mut defines).unwrap_err();
    assert!(matches!(err.kind(), ErrorKind::UnknownDirective));
    assert_eq!(err.path(), "p");
}

#[test]
fn wrong_argument_count_errors() {
    let tokens = tokenize("#define F(A,B) A B\nv = \"F(x)\";\n", "p").unwrap();
    let mut defines = Defines::new();
    let err = Preprocessor::execute(&tokens, &mut defines).unwrap_err();
    assert!(matches!(err.kind(), ErrorKind::WrongArgumentCount));
}

#[test]
fn cyclic_macro_hits_recursion_limit() {
    let tokens = tokenize("#define A A\nv = A;\n", "p").unwrap();
    let mut defines = Defines::new();
    let err = Preprocessor::execute(&tokens, &mut defines).unwrap_err();
    assert!(matches!(err.kind(), ErrorKind::RecursionLimit));
    assert!(!err.message().is_empty());
}

#[test]
fn directive_without_identifier_errors() {
    let tokens = tokenize("#define 5\n", "p").unwrap();
    let mut defines = Defines::new();
    let err = Preprocessor::execute(&tokens, &mut defines).unwrap_err();
    assert!(matches!(err.kind(), ErrorKind::DirectiveSyntax));
}

#[test]
fn function_macro_without_parenthesis_errors() {
    let tokens = tokenize("#define F(A) A\nv = F;\n", "p").unwrap();
    let mut defines = Defines::new();
    let err = Preprocessor::execute(&tokens, &mut defines).unwrap_err();
    assert!(matches!(err.kind(), ErrorKind::ExpectedParenthesis));
}

#[test]
fn unterminated_argument_list_errors() {
    let tokens = tokenize("#define F(A) A\nv = F(x\n", "p").unwrap();
    let mut defines = Defines::new();
    let err = Preprocessor::execute(&tokens, &mut defines).unwrap_err();
    assert!(matches!(err.kind(), ErrorKind::UnterminatedArguments));
}

#[test]
fn unterminated_define_body_errors() {
    let tokens = tokenize("#define X 1", "p").unwrap();
    let mut defines = Defines::new();
    let err = Preprocessor::execute(&tokens, &mut defines).unwrap_err();
    assert!(matches!(err.kind(), ErrorKind::UnterminatedBody));
}

#[test]
fn multi_line_body_with_continuation() {
    let content = "#define LONG first \\\nsecond\nv = LONG;\n";
    assert_eq!("v = first \nsecond;\n", run(content, ""));
}

#[test]
fn caller_seeded_defines_are_used() {
    let mut defines = Defines::new();
    let body = vec![TokenPair::anon(Token::Digit(1))];
    defines.new_word("A", body);
    let tokens = tokenize("v = A;\n", "p").unwrap();
    let preprocessor = Preprocessor::execute(&tokens, &mut defines).unwrap();
    assert_eq!(render(preprocessor.output()).export(), "v = 1;\n");
    assert!(defines.defined("A"));
}

#[test]
fn define_changes_table_and_undef_restores() {
    let tokens = tokenize("#define X 1\n", "p").unwrap();
    let mut defines = Defines::new();
    assert!(!defines.defined("X"));
    Preprocessor::execute(&tokens, &mut defines).unwrap();
    assert!(defines.defined("X"));
    let tokens2 = tokenize("#undef X\n", "p").unwrap();
    Preprocessor::execute(&tokens2, &mut defines).unwrap();
    assert!(!defines.defined("X"));
}

#[test]
fn empty_input_gives_empty_output() {
    assert_eq!("", run("", ""));
}

#[test]
fn redefining_a_name_takes_the_newer_body() {
    let content = "#define A 1\n#define A 2\nv = A;\n";
    assert_eq!("v = 2;\n", run(content, ""));
}

#[test]
fn whitespace_before_parameter_list_still_function_like() {
    let content = "#define SAY (N) Hi N\nv = \"SAY(x)\";\n";
    assert_eq!("v = \"Hi x\";\n", run(content, ""));
}

#[test]
fn preprocessing_without_directives_is_identity() {
    let content = "class Foo {\n    value = 12.5;\n};\n";
    assert_eq!(content, run(content, ""));
    let once = run(content, "");
    assert_eq!(once, run(once.as_str(), ""));
}
