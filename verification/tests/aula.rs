use expressa::aula::{filename, leia_call_count, leia_prompts, parse_string_literal, student};

#[test]
fn leia_count_ignores_leia_arquivo() {
    assert_eq!(
        leia_call_count("x = leia()\nlinhas = leia_arquivo(\"a\")"),
        1
    );
    assert_eq!(leia_call_count("leia(\"n\")\nleia()"), 2);
    assert_eq!(leia_call_count("escreva(1)"), 0);
    assert_eq!(leia_call_count("aleia()"), 0);
}

#[test]
fn leia_prompt_from_string_literal() {
    assert_eq!(
        leia_prompts(r#"nome = leia("Seu nome:")"#),
        vec![Some("Seu nome:".into())]
    );
    assert_eq!(leia_prompts("x = leia()"), vec![None]);
    assert_eq!(
        leia_prompts("leia(\"a\")\nleia()"),
        vec![Some("a".into()), None]
    );
}

#[test]
fn leia_prompt_allows_space_before_parenthesis_and_literal() {
    assert_eq!(
        leia_prompts("n = leia  (  \"Idade? \")"),
        vec![Some("Idade? ".to_string())]
    );
    assert_eq!(leia_prompts("leia"), Vec::<Option<String>>::new());
    assert_eq!(leia_prompts("meu_leia(\"x\")"), Vec::<Option<String>>::new());
    assert_eq!(leia_prompts("leia(nome)"), vec![None]);
    assert_eq!(leia_call_count("x = v1leia()"), 0);
    assert_eq!(leia_call_count("x = çleia()"), 0);
    assert_eq!(leia_call_count("x=leia()+leia()"), 2);
}

#[test]
fn string_literal_escapes_and_unterminated() {
    assert_eq!(
        parse_string_literal("  \"a\\nb\\t\\\"c\\\\\\q\" resto"),
        Some("a\nb\t\"c\\q".to_string())
    );
    assert_eq!(parse_string_literal("\"sem fim"), None);
    assert_eq!(parse_string_literal("\"barra\\"), None);
    assert_eq!(parse_string_literal("x \"a\""), None);
    assert_eq!(parse_string_literal(""), None);
}

#[test]
fn editor_fields_give_names() {
    assert_eq!(student(""), "local");
    assert_eq!(student("ana"), "ana");
    assert_eq!(filename(""), "sem-titulo.lep");
    assert_eq!(filename("prova.lep"), "prova.lep");
    assert_eq!(filename("prova"), "prova.lep");
    assert_eq!(filename("lep"), "lep.lep");
}
