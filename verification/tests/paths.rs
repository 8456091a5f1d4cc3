use expressa::paths::{lexical_normalize, relative_from_rest, relative_to, sanitize_student, student_dir, student_file};

#[test]
fn rejects_parent_dir_escape() {
    let root = "/var/aula";
    let err = student_file(root, "ana", "../bruno/segredo.lep").unwrap_err();
    assert!(err.contains("fora da pasta"), "{err}");
}

#[test]
fn rejects_absolute() {
    assert!(student_file("/var/aula", "ana", "/etc/passwd").is_err());
}

#[test]
fn accepts_nested_lep() {
    let p = student_file("/var/aula", "ana", "ex/bhaskara.lep").unwrap();
    assert_eq!(p, "/var/aula/ana/ex/bhaskara.lep");
}

#[test]
fn empty_student_is_local() {
    let p = student_file("/var/aula", "", "a.lep").unwrap();
    assert_eq!(p, "/var/aula/local/a.lep");
}

#[test]
fn empty_relative_path_is_refused() {
    assert_eq!(student_file("/var/aula", "ana", "   ").unwrap_err(), "caminho vazio");
    assert_eq!(
        student_file("/var/aula", "ana", "/etc/passwd").unwrap_err(),
        "caminho absoluto não é permitido"
    );
}

#[test]
fn dots_inside_the_folder_are_resolved() {
    let p = student_file("/var/aula", "ana", "ex/../b/./c.lep").unwrap();
    assert_eq!(p, "/var/aula/ana/b/c.lep");
    let err = student_file("/var/aula", "ana", "..").unwrap_err();
    assert_eq!(err, "caminho fora da pasta do aluno: ..");
}

#[test]
fn student_names_are_checked() {
    assert_eq!(sanitize_student("  ana_1-b ").unwrap(), "ana_1-b");
    assert_eq!(sanitize_student("   ").unwrap(), "local");
    assert_eq!(
        sanitize_student("a/b").unwrap_err(),
        "nome de aluno inválido: \"a/b\""
    );
    assert_eq!(student_dir("/var/aula", "ana").unwrap(), "/var/aula/ana");
    assert!(student_dir("/var/aula", "ana maria").is_err());
}

#[test]
fn normalizing_by_text() {
    assert_eq!(lexical_normalize("/a/./b/../c//d/"), "/a/c/d");
    assert_eq!(lexical_normalize("../x"), "x");
    assert_eq!(lexical_normalize("/.."), "/");
    assert_eq!(lexical_normalize(""), "");
}

#[test]
fn relative_paths_use_slashes() {
    assert_eq!(relative_to("/var/aula", "/var/aula/ana/a.lep"), "ana/a.lep");
    assert_eq!(relative_to("/var/aula", "/outro/a.lep"), "/outro/a.lep");
    assert_eq!(relative_to("/r", "/x/a\\b"), "/x/a/b");
    assert_eq!(relative_to("/r", "/r/a//b"), "a//b");
    assert_eq!(relative_to("/r", "/r/a\\b"), "a/b");
    assert_eq!(relative_to("/var/aula/ana", "/var/aula/ana/ex/a.lep"), "ex/a.lep");
    assert_eq!(relative_to("/x", "/var/a"), "/var/a");
    assert_eq!(relative_to("/var/a", "/var/ab"), "/var/ab");
}

#[test]
fn relative_text_from_what_was_left() {
    assert_eq!(relative_from_rest(Some("ex\\a.lep"), "/r/ex\\a.lep"), "ex/a.lep");
    assert_eq!(relative_from_rest(Some("a//b"), "/r/a//b"), "a//b");
    assert_eq!(relative_from_rest(None, "C:\\x\\y"), "C:/x/y");
    assert_eq!(relative_from_rest(Some(""), "/r"), "");
}

#[test]
fn normalizing_resolves_dots_once_for_all() {
    for (p, q) in [
        ("/var/aula/ana/../bruno/x.lep", "/var/aula/bruno/x.lep"),
        ("/..", "/"),
        ("../a", "a"),
        ("./a/./b/../c/", "a/c"),
        ("a/../..", ""),
    ] {
        let n = lexical_normalize(p);
        assert_eq!(n, q);
        assert_eq!(lexical_normalize(&n), n);
    }
}
