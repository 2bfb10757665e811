use arma_config::asc::{check_excludes, ASCConfig, ArmaScriptCompiler};
use arma_config::render::render;
use arma_config::reporting::MissingMainPrefix;
use arma_config::tokenizer::tokenize;

#[test]
fn compiler_config_builder() {
    let _compiler = ArmaScriptCompiler::new();
    let mut config = ASCConfig::new();
    assert_eq!(config.worker_threads(), 2);
    config.add_input_dir("src".to_string());
    config.add_input_dir("src".to_string());
    assert_eq!(config.input_dirs().len(), 1);
    config.add_input_dir("more".to_string());
    assert_eq!(config.input_dirs().len(), 2);
    config.set_output_dir("out".to_string());
    assert_eq!(config.output_dir(), "out");
    config.add_include_dir("inc".to_string());
    assert_eq!(config.include_dirs().len(), 1);
    config.add_exclude("a/b/c");
    assert_eq!(config.exclude_list()[0], "a\\b\\c");
    config.set_worker_threads(8);
    assert_eq!(config.worker_threads(), 8);
}

#[test]
fn exclude_validation() {
    let good = vec!["a/b".to_string(), "plain".to_string()];
    assert!(check_excludes(&good).is_none());
    let wild = vec!["a*".to_string()];
    assert_eq!(check_excludes(&wild).unwrap(), "wildcards are not supported");
    let back = vec!["a\\b".to_string()];
    assert_eq!(
        check_excludes(&back).unwrap(),
        "backslashes are not supported, use forward slashes"
    );
}

#[test]
fn missing_main_prefix_report() {
    let code = MissingMainPrefix::code();
    assert_eq!(code.ident(), "BCLE5");
    assert_eq!(code.link(), Some("/configuration/index.html#main-prefix"));
    assert_eq!(code.message(), "Missing `mainprefix` in project.toml.");
}

#[test]
fn render_line_map() {
    let tokens = tokenize("ab c\nd\n", "p").unwrap();
    let mut owned = Vec::new();
    let mut i = 0;
    while i < tokens.len() {
        owned.push(tokens.get(i).clone());
        i += 1;
    }
    let rendered = render(&owned);
    assert_eq!(rendered.export(), "ab c\nd\n");
    let map = rendered.map();
    assert_eq!(map.len(), 2);
    assert_eq!(map[0].0, 1);
    // line one: the word "ab" at column one, a space at three, "c" at four
    assert_eq!(map[0].1.len(), 3);
    assert_eq!(map[0].1[0].0, 1);
    assert_eq!(map[0].1[0].1, 2);
    assert_eq!(map[0].1[0].2, "p");
    assert_eq!(map[0].1[1].0, 3);
    assert_eq!(map[0].1[2].0, 4);
    assert_eq!(map[1].0, 2);
    assert_eq!(map[1].1.len(), 1);
    assert_eq!(rendered.tokens().len(), owned.len());
}
