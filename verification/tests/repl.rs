use expressa::runtime::builtins::{lookup_builtin_doc, sem_acento};
use expressa::runtime::repl::{
    help_text_for, normalize_topic, parse_repl_command, repl_input, ReplCommand, ReplStep,
};

#[test]
fn ajuda_parses_topics_with_accents() {
    assert!(matches!(
        parse_repl_command("ajuda funções"),
        Some(ReplCommand::Ajuda(Some(t))) if t == "funções"
    ));
    assert!(matches!(
        parse_repl_command("ajuda funcoes"),
        Some(ReplCommand::Ajuda(Some(t))) if t == "funcoes"
    ));
    assert!(matches!(
        parse_repl_command("ajuda raiz"),
        Some(ReplCommand::Ajuda(Some(t))) if t == "raiz"
    ));
    assert_eq!(normalize_topic("funções"), "funcoes");
    assert!(lookup_builtin_doc("escreva").is_some());
}

#[test]
fn repl_commands() {
    assert_eq!(parse_repl_command(""), Some(ReplCommand::Vazio));
    assert_eq!(parse_repl_command(".SAIR"), Some(ReplCommand::Sair));
    assert_eq!(parse_repl_command("ajuda"), Some(ReplCommand::Ajuda(None)));
    assert_eq!(parse_repl_command("x = 1"), None);
    assert_eq!(parse_repl_command("   "), None);
}

#[test]
fn builtin_docs_know_the_aliases() {
    let d = lookup_builtin_doc("é_terminal").unwrap();
    assert_eq!(d.name, "eh_terminal");
    assert!(lookup_builtin_doc("nao_existe").is_none());
}

#[test]
fn sem_acento_strips_portuguese() {
    assert_eq!(sem_acento("São Paulo"), "Sao Paulo");
    assert_eq!(sem_acento("olá"), "ola");
    assert_eq!(sem_acento("AÇÃO"), "ACAO");
    assert_eq!(sem_acento("açaí"), "acai");
    assert_eq!(sem_acento("é"), "e");
    assert_eq!(sem_acento("abc"), "abc");
    assert_eq!(sem_acento(""), "");
    // e + combining acute (NFD)
    assert_eq!(sem_acento("e\u{0301}"), "e");
}

#[test]
fn prompt_gathers_code_until_finished() {
    let mut buf = String::new();
    assert_eq!(repl_input(&mut buf, "  sair "), ReplStep::Sair);
    assert_eq!(buf, "");
    assert_eq!(
        repl_input(&mut buf, " ajuda lista "),
        ReplStep::Ajuda { topic: Some("lista".to_string()), entry: "ajuda lista".to_string() }
    );
    assert_eq!(repl_input(&mut buf, "   "), ReplStep::Esperar);
    assert_eq!(buf, "");
    assert_eq!(repl_input(&mut buf, "escreva("), ReplStep::Esperar);
    assert_eq!(buf, "escreva(\n");
    assert_eq!(repl_input(&mut buf, "sair"), ReplStep::Esperar);
    assert_eq!(buf, "escreva(\nsair\n");
    assert_eq!(
        repl_input(&mut buf, ")"),
        ReplStep::Rodar("escreva(\nsair\n)\n".to_string())
    );
    assert_eq!(buf, "");
    assert_eq!(repl_input(&mut buf, "escreva(1)"), ReplStep::Rodar("escreva(1)\n".to_string()));
}

#[test]
fn help_topics() {
    let geral = help_text_for(None);
    assert!(geral.starts_with("  2 + 2                 avalia e mostra o resultado\n  x = 10"));
    assert!(geral.ends_with("  ↑ ↓                    comandos anteriores\n"));
    let funcs = help_text_for(Some("Funções"));
    assert!(funcs.starts_with("Funções nativas:\n\n  escreva(valor, ...)    Imprime os argumentos"));
    assert!(funcs.ends_with("\n\n  ajuda <nome>          detalhe, ex.: ajuda raiz\n"));
    assert_eq!(funcs.lines().count(), 2 + 28 + 2);
    let lang = help_text_for(Some("sintaxe"));
    assert!(lang.contains("  se cond { … } senao { … }   '{' e '}' valem como inicio/fim\n"));
    assert_eq!(
        help_text_for(Some("raiz")),
        "  raiz(numero) -> numero\n  Raiz quadrada. Erro se o número for negativo (use se_falhar).\n  exemplo: raiz(9)    // 3\n"
    );
    assert_eq!(help_text_for(Some(" ESCREVA ")), help_text_for(Some("escreva")));
    assert_eq!(
        help_text_for(Some("argumentos")),
        "  argumentos              lista dos valores após o .lep\n  argumentos[1]           primeiro (índices começam em 1)\n  exemplo: expressa grep.lep Thiago\n"
    );
    assert_eq!(
        help_text_for(Some("xyz")),
        "Não conheço o tópico `xyz`.\n  Tente: ajuda, ajuda funcoes, ajuda linguagem, ajuda escreva\n"
    );
}
