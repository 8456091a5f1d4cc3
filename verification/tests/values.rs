use expressa::runtime::builtins::{junte, separe};
use expressa::runtime::eval::{
    callee_name, check_unique_params, para_next, removal_bounds, repita_count, run_report, to_index,
    to_slice_bounds, RunReport,
};
use expressa::runtime::leia::strip_newline;
use expressa::runtime::value::{
    escape_texto, group_thousands, layout_matriz, localize_digits, looks_like_thousands,
    strip_thousands, transpose, det_shape, identity,
};
use expressa::runtime::{MapKey, NumeroLocale, RuntimeError};
use expressa::lexer::Span;
use expressa::text::name_order;
use expressa::parser::{Expr, Param};

#[test]
fn locale_names() {
    assert_eq!(NumeroLocale::from_name(" PT-BR "), Some(NumeroLocale::PtBr));
    assert_eq!(NumeroLocale::from_name("brasileiro"), Some(NumeroLocale::PtBr));
    assert_eq!(NumeroLocale::from_name("EN"), Some(NumeroLocale::EnUs));
    assert_eq!(NumeroLocale::from_name("americano"), Some(NumeroLocale::EnUs));
    assert_eq!(NumeroLocale::from_name("fr"), None);
    assert_eq!(NumeroLocale::default(), NumeroLocale::PtBr);
}

#[test]
fn thousands_are_grouped_from_the_right() {
    assert_eq!(group_thousands("1234567", '.'), "1.234.567");
    assert_eq!(group_thousands("123456", ','), "123,456");
    assert_eq!(group_thousands("12", '.'), "12");
    assert_eq!(group_thousands("", '.'), "");
}

#[test]
fn read_lines_lose_their_ending() {
    let mut s = String::from("abc\r\n");
    strip_newline(&mut s);
    assert_eq!(s, "abc");
    let mut s = String::from("abc\n");
    strip_newline(&mut s);
    assert_eq!(s, "abc");
    let mut s = String::from("abc\r");
    strip_newline(&mut s);
    assert_eq!(s, "abc\r");
}

#[test]
fn callee_and_parameter_checks() {
    let sp = Span::new(1, 1, 0, 1);
    let id = Expr::Ident { name: "f".into(), span: sp };
    assert_eq!(callee_name(&id), "f");
    let field = Expr::Field { object: Box::new(Expr::Ident { name: "m".into(), span: sp }), field: "soma".into(), span: sp };
    assert_eq!(callee_name(&field), "soma");
    assert_eq!(callee_name(&Expr::Bool { value: true, span: sp }), "<funcao>");
    let ps = vec![
        Param { name: "a".into(), span: sp },
        Param { name: "b".into(), span: sp },
        Param { name: "a".into(), span: sp },
    ];
    assert_eq!(check_unique_params(&ps), Err("a".to_string()));
    let unique = vec![
        Param { name: "a".into(), span: sp },
        Param { name: "b".into(), span: sp },
    ];
    assert_eq!(check_unique_params(&unique), Ok(()));
}

#[test]
fn quoted_text_escapes() {
    assert_eq!(escape_texto(r#"a"b\c"#), r#"a\"b\\c"#);
    assert_eq!(escape_texto("abc"), "abc");
}

#[test]
fn pt_br_and_en_us_decimal_text() {
    let pt = NumeroLocale::PtBr;
    let en = NumeroLocale::EnUs;
    assert_eq!(pt.decimal_text("3,14"), Some("3.14".to_string()));
    assert_eq!(pt.decimal_text("1.000"), Some("1000".to_string()));
    assert_eq!(pt.decimal_text("1.000,5"), Some("1000.5".to_string()));
    assert_eq!(pt.decimal_text("3.14"), Some("3.14".to_string()));
    assert_eq!(en.decimal_text("1,000.5"), Some("1000.5".to_string()));
    assert_eq!(en.decimal_text("1,000"), Some("1000".to_string()));
    assert_eq!(en.decimal_text("3.14"), Some("3.14".to_string()));
}

#[test]
fn decimal_text_edges() {
    let pt = NumeroLocale::PtBr;
    let en = NumeroLocale::EnUs;
    assert_eq!(pt.decimal_text("   "), None);
    assert_eq!(pt.decimal_text(" 1_000 000,25 "), Some("1000000.25".to_string()));
    assert_eq!(pt.decimal_text("1,2,3"), None);
    assert_eq!(pt.decimal_text("1,"), None);
    assert_eq!(pt.decimal_text("1,5a"), None);
    assert_eq!(pt.decimal_text("10.00,5"), None);
    assert_eq!(pt.decimal_text("1.2.3"), None);
    assert_eq!(pt.decimal_text("+1.000"), Some("1000".to_string()));
    assert_eq!(pt.decimal_text("abc"), Some("abc".to_string()));
    assert_eq!(pt.decimal_text("3.1"), Some("3.1".to_string()));
    assert_eq!(pt.decimal_text("3.145"), Some("3145".to_string()));
    assert_eq!(pt.decimal_text("1_000"), Some("1000".to_string()));
    assert_eq!(en.decimal_text("1.2.3"), None);
    assert_eq!(en.decimal_text("12,34.5"), None);
    assert_eq!(en.decimal_text("-1,000.25"), Some("-1000.25".to_string()));
    assert_eq!(pt.decimal_text("-1.000"), Some("-1000".to_string()));
    assert_eq!(pt.decimal_text("-1.000,5"), Some("-1000.5".to_string()));
    assert_eq!(pt.decimal_text("-12.345.678"), Some("-12345678".to_string()));
    assert_eq!(en.decimal_text("-1000.25"), Some("-1000.25".to_string()));
    assert_eq!(en.decimal_text("1,00"), None);
}

#[test]
fn thousands_groups_are_recognised_and_stripped() {
    assert!(looks_like_thousands("1.000", '.'));
    assert!(looks_like_thousands("12.345.678", '.'));
    assert!(looks_like_thousands("+1.000", '.'));
    assert!(looks_like_thousands("-+1.000", '.'));
    assert!(looks_like_thousands("-1.000", '.'));
    assert!(!looks_like_thousands("--1.000", '.'));
    assert!(!looks_like_thousands("1000", '.'));
    assert!(!looks_like_thousands("1234.567", '.'));
    assert!(!looks_like_thousands("1.00", '.'));
    assert!(!looks_like_thousands(".000", '.'));
    assert_eq!(strip_thousands("1.000", '.'), Some("1000".to_string()));
    assert_eq!(strip_thousands("-12", '.'), Some("-12".to_string()));
    assert_eq!(strip_thousands("+7", '.'), Some("7".to_string()));
    assert_eq!(strip_thousands("1.00", '.'), None);
}

#[test]
fn grouped_numbers_read_back() {
    let pt = NumeroLocale::PtBr;
    let en = NumeroLocale::EnUs;
    let g = group_thousands("1234567", '.');
    assert_eq!(g, "1.234.567");
    assert_eq!(strip_thousands(&g, '.'), Some("1234567".to_string()));
    assert_eq!(pt.decimal_text(&format!("{g},89")), Some("1234567.89".to_string()));
    assert_eq!(pt.decimal_text(&g), Some("1234567".to_string()));
    let g = group_thousands("1234567", ',');
    assert_eq!(en.decimal_text(&format!("{g}.89")), Some("1234567.89".to_string()));
    assert_eq!(en.decimal_text(&g), Some("1234567".to_string()));
    assert_eq!(pt.decimal_text("12,5"), Some("12.5".to_string()));
    assert_eq!(en.decimal_text("12.5"), Some("12.5".to_string()));
}

#[test]
fn layout_of_numbers_by_pattern() {
    let pt = NumeroLocale::PtBr;
    let en = NumeroLocale::EnUs;
    assert_eq!(localize_digits(Some(pt), false, "1000"), "1.000");
    assert_eq!(localize_digits(Some(pt), false, "7.3"), "7,3");
    assert_eq!(localize_digits(Some(en), false, "1000"), "1,000");
    assert_eq!(localize_digits(Some(en), false, "7.3"), "7.3");
    assert_eq!(localize_digits(Some(pt), true, "1234567.25"), "-1.234.567,25");
    assert_eq!(localize_digits(None, true, "1234567.25"), "-1234567.25");
    assert_eq!(localize_digits(None, false, "12"), "12");
    for raw in ["0", "12", "1000", "1234567.89", "0.001"] {
        assert_eq!(pt.decimal_text(&localize_digits(Some(pt), false, raw)), Some(raw.to_string()));
        assert_eq!(en.decimal_text(&localize_digits(Some(en), false, raw)), Some(raw.to_string()));
        let minus = format!("-{raw}");
        assert_eq!(pt.decimal_text(&localize_digits(Some(pt), true, raw)), Some(minus.clone()));
        assert_eq!(en.decimal_text(&localize_digits(Some(en), true, raw)), Some(minus));
    }
}

#[test]
fn positions_count_from_one() {
    assert_eq!(to_index(1, 3), Ok(0));
    assert_eq!(to_index(3, 3), Ok(2));
    assert_eq!(to_index(0, 3), Err("índice deve ser >= 1, encontrado 0".to_string()));
    assert_eq!(to_index(-7, 3), Err("índice deve ser >= 1, encontrado -7".to_string()));
    assert_eq!(to_index(4, 3), Err("índice 4 fora do intervalo (tamanho 3)".to_string()));
    assert_eq!(to_slice_bounds(2, 3, 5), Ok((1, 3)));
    assert_eq!(to_slice_bounds(4, 2, 5), Ok((0, 0)));
    assert_eq!(to_slice_bounds(0, 2, 5), Err("índices de fatia devem ser >= 1".to_string()));
    assert_eq!(to_slice_bounds(2, 9, 5), Ok((1, 5)));
    assert_eq!(to_slice_bounds(2, 10, 3), Ok((1, 3)));
    assert_eq!(to_slice_bounds(2, 2, 1), Ok((1, 1)));
    assert_eq!(to_slice_bounds(7, 9, 5), Ok((5, 5)));
    assert_eq!(to_slice_bounds(2, 0, 5), Err("índices de fatia devem ser >= 1".to_string()));
    assert_eq!(removal_bounds(2, 2, 1), Ok((1, 1)));
    assert_eq!(removal_bounds(2, 3, 5), Ok((1, 3)));
    assert_eq!(
        removal_bounds(4, 2, 5),
        Err("faixa de remova: início 4 maior que o fim 2".to_string())
    );
    assert_eq!(
        removal_bounds(-3, -9, 5),
        Err("faixa de remova: início -3 maior que o fim -9".to_string())
    );
}

fn cells(rows: &[&[&str]]) -> Vec<Vec<String>> {
    rows.iter()
        .map(|r| r.iter().map(|c| c.to_string()).collect())
        .collect()
}

#[test]
fn matrices_align_their_columns() {
    assert_eq!(layout_matriz(&Vec::new()), "[]");
    assert_eq!(layout_matriz(&cells(&[&["1", "2"]])), "[ 1  2 ]");
    assert_eq!(
        layout_matriz(&cells(&[&["1", "-2,5"], &["10", "3"]])),
        "[  1  -2,5 ]\n[ 10     3 ]"
    );
    assert_eq!(layout_matriz(&cells(&[&[], &[]])), "[  ]\n[  ]");
    assert_eq!(layout_matriz(&cells(&[&["1", "22"], &["333"]])), "[   1  22 ]\n[ 333 ]");
}

#[test]
fn map_keys_are_written() {
    assert_eq!(MapKey::Texto("a\"b".to_string()).to_string(), "\"a\\\"b\"");
    assert_eq!(MapKey::Numero(-12).to_string(), "-12");
    assert_eq!(MapKey::Numero(i64::MIN).to_string(), "-9223372036854775808");
    assert_eq!(MapKey::Bool(true).to_string(), "verdadeiro");
    assert_eq!(MapKey::Bool(false).to_string(), "falso");
}

#[test]
fn names_are_put_in_order() {
    let names: Vec<String> = ["zeta", "a", "ab", "B", "á", "a"].iter().map(|s| s.to_string()).collect();
    assert_eq!(name_order(&names), vec![3, 1, 5, 2, 0, 4]);
    assert_eq!(name_order(&Vec::new()), Vec::<usize>::new());
}

#[test]
fn transposing_matrices() {
    let m: Vec<Vec<i64>> = vec![vec![1, 2, 3], vec![4, 5, 6]];
    let t = transpose(&m);
    assert_eq!(t, vec![vec![1, 4], vec![2, 5], vec![3, 6]]);
    assert_eq!(transpose(&t), m);
    assert_eq!(transpose::<i64>(&Vec::new()), Vec::<Vec<i64>>::new());
    assert_eq!(transpose(&vec![Vec::<i64>::new(), Vec::new()]), Vec::<Vec<i64>>::new());
    assert_eq!(transpose(&vec![vec![1.5, 2.0]]), vec![vec![1.5], vec![2.0]]);
}

#[test]
fn matrix_shapes_for_det_and_identity() {
    let sq: Vec<Vec<i64>> = vec![vec![1, 2], vec![3, 4]];
    assert_eq!(det_shape(&sq), Ok(2));
    assert_eq!(det_shape(&vec![vec![5i64]]), Ok(1));
    assert_eq!(det_shape::<i64>(&Vec::new()), Err("det() exige matriz quadrada".to_string()));
    assert_eq!(
        det_shape(&vec![vec![1i64, 2], vec![3]]),
        Err("det() exige matriz quadrada".to_string())
    );
    let big: Vec<Vec<i64>> = vec![vec![0; 4]; 4];
    assert_eq!(det_shape(&big), Err("det() só para matrizes 1×1, 2×2 ou 3×3".to_string()));
    assert_eq!(identity(3, 0, 1), vec![vec![1, 0, 0], vec![0, 1, 0], vec![0, 0, 1]]);
    assert_eq!(identity(0, 0, 1), Vec::<Vec<i32>>::new());
}

#[test]
fn loop_counts_and_run_reports() {
    assert_eq!(repita_count(3), Ok(3));
    assert_eq!(repita_count(0), Ok(0));
    assert_eq!(repita_count(-1), Err("'repita' espera um número >= 0".to_string()));
    assert_eq!(para_next(1, 3), Some(2));
    assert_eq!(para_next(2, 3), Some(3));
    assert_eq!(para_next(3, 3), None);
    assert_eq!(para_next(5, 3), None);
    assert_eq!(para_next(i64::MAX - 1, i64::MAX), Some(i64::MAX));
    assert_eq!(para_next(i64::MAX, i64::MAX), None);
    let ok = run_report(&Ok(0));
    assert!(ok.ok && ok.error_message.is_empty() && ok.error_line == 0);
    let code = run_report(&Ok(3));
    assert!(!code.ok);
    assert_eq!(code.error_message, "encerrou com código 3");
    let err = RuntimeError {
        message: "divisão por zero".to_string(),
        file: "t.lep".to_string(),
        span: Span::new(2, 7, 10, 15),
        stack: Vec::new(),
    };
    let r = run_report(&Err(err));
    assert_eq!(
        r,
        RunReport {
            ok: false,
            error_message: "divisão por zero".to_string(),
            error_file: "t.lep".to_string(),
            error_line: 2,
            error_col: 7,
        }
    );
}

#[test]
fn separe_and_junte_texts() {
    let v = |xs: &[&str]| xs.iter().map(|x| x.to_string()).collect::<Vec<String>>();
    assert_eq!(separe("a,b,c", ","), v(&["a", "b", "c"]));
    assert_eq!(separe("ola", ""), v(&["o", "l", "a"]));
    assert_eq!(separe("a,,b", ","), v(&["a", "", "b"]));
    assert_eq!(separe("", ","), v(&[""]));
    assert_eq!(separe("", ""), v(&[]));
    assert_eq!(separe("sem", ";"), v(&["sem"]));
    assert_eq!(separe("a - b - c", " - "), v(&["a", "b", "c"]));
    assert_eq!(separe("Ana,25", ","), v(&["Ana", "25"]));
    assert_eq!(junte(&v(&["a", "b", "c"]), " - "), "a - b - c");
    assert_eq!(junte(&v(&["1", "2", "3"]), ","), "1,2,3");
    assert_eq!(junte(&v(&[]), ","), "");
    assert_eq!(junte(&v(&["só"]), ","), "só");
    let parts = separe("x;;y;z", ";");
    assert_eq!(junte(&parts, ";"), "x;;y;z");
}
