use expressa::parser::parse;

#[test]
fn statement_se_may_omit_senao() {
    parse("se verdadeiro { escreva(1) }").unwrap();
    parse(
        r#"
para x em [1]
inicio
    se x == 1
    inicio
        verdadeiro
    fim
fim
"#,
    )
    .unwrap();
}

#[test]
fn value_se_needs_senao() {
    let err = parse(r#"x = se verdadeiro { 1 }"#).unwrap_err();
    assert!(err.message.contains("senao"), "{err:?}");
    let err = parse(r#"escreva(se verdadeiro { 1 })"#).unwrap_err();
    assert!(err.message.contains("senao"), "{err:?}");
    parse("f = funcao() { se verdadeiro { 1 } }").unwrap();
    let err = parse("x = { se verdadeiro { 1 } }").unwrap_err();
    assert!(err.message.contains("senao"), "{err:?}");
    parse(r#"x = se verdadeiro { 1 } senao { 2 }"#).unwrap();
    parse("f = funcao() { se verdadeiro { 1 } senao { 2 } }").unwrap();
}
