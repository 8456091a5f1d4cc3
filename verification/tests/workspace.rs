use expressa::runtime::workspace::{base_dir_of, confine, resolve_data_path, resolve_import_path};

#[test]
fn kept_runs_stay_in_their_folder() {
    let root = Some("/aula/ana");
    assert_eq!(
        resolve_data_path("/aula/ana", root, "dados.txt"),
        Ok("/aula/ana/dados.txt".to_string())
    );
    assert_eq!(
        resolve_data_path("/aula/ana/sub", root, "../notas.csv"),
        Ok("/aula/ana/notas.csv".to_string())
    );
    assert_eq!(
        resolve_data_path("/aula/ana", root, "../bruno/segredo.txt"),
        Err("caminho fora da pasta do aluno: /aula/bruno/segredo.txt".to_string())
    );
    assert_eq!(
        resolve_data_path("/aula/ana", root, "/etc/passwd"),
        Err("caminho fora da pasta do aluno: /etc/passwd".to_string())
    );
    assert_eq!(
        resolve_data_path("/aula/ana", root, "/aula/anabela/x"),
        Err("caminho fora da pasta do aluno: /aula/anabela/x".to_string())
    );
}

#[test]
fn free_runs_use_paths_as_given() {
    assert_eq!(resolve_data_path("pasta", None, "../x.txt"), Ok("pasta/../x.txt".to_string()));
    assert_eq!(resolve_data_path("pasta", None, "/tmp/x"), Ok("/tmp/x".to_string()));
    assert_eq!(confine(None, "a/../b"), Ok("a/../b".to_string()));
    assert_eq!(confine(Some("/r"), "/r/a/../b"), Ok("/r/b".to_string()));
}

#[test]
fn imports_get_the_lep_extension() {
    assert_eq!(
        resolve_import_path("/aula/ana", Some("/aula/ana"), "util"),
        Ok("/aula/ana/util.lep".to_string())
    );
    assert_eq!(
        resolve_import_path("/aula/ana", Some("/aula/ana"), "lib/util.lep"),
        Ok("/aula/ana/lib/util.lep".to_string())
    );
    assert_eq!(resolve_import_path(".", None, "util.txt"), Ok("./util.txt".to_string()));
    assert_eq!(
        resolve_import_path("/aula/ana", Some("/aula/ana"), "../bruno/util"),
        Err("caminho fora da pasta do aluno: /aula/bruno/util.lep".to_string())
    );
}

#[test]
fn program_folder() {
    assert_eq!(base_dir_of("prog.lep"), ".");
    assert_eq!(base_dir_of("aulas/prog.lep"), "aulas");
    assert_eq!(base_dir_of("/prog.lep"), "/");
}
