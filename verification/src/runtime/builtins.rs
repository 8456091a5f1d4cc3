//! Text helpers of the native functions, and their reference pages.
use vstd::prelude::*;

use crate::text::{has_sub, push_char, push_str, str_chars, text_is};

verus! {

/// A combining mark (U+0300..U+036F), as left by decomposed accents.
pub open spec fn combining(c: char) -> bool {
    0x300 <= (c as u32) <= 0x36F
}

pub fn is_combining_mark(c: char) -> (b: bool)
    ensures
        b == combining(c),
{
    let u = c as u32;
    0x300 <= u && u <= 0x36F
}

/// The base letter of an accented Latin letter; any other character itself.
pub open spec fn base_letter(c: char) -> char {
    if c == 'á' || c == 'à' || c == 'â' || c == 'ã' || c == 'ä' {
        'a'
    } else if c == 'é' || c == 'è' || c == 'ê' || c == 'ë' {
        'e'
    } else if c == 'í' || c == 'ì' || c == 'î' || c == 'ï' {
        'i'
    } else if c == 'ó' || c == 'ò' || c == 'ô' || c == 'õ' || c == 'ö' {
        'o'
    } else if c == 'ú' || c == 'ù' || c == 'û' || c == 'ü' {
        'u'
    } else if c == 'ý' || c == 'ÿ' {
        'y'
    } else if c == 'ç' {
        'c'
    } else if c == 'ñ' {
        'n'
    } else if c == 'Á' || c == 'À' || c == 'Â' || c == 'Ã' || c == 'Ä' {
        'A'
    } else if c == 'É' || c == 'È' || c == 'Ê' || c == 'Ë' {
        'E'
    } else if c == 'Í' || c == 'Ì' || c == 'Î' || c == 'Ï' {
        'I'
    } else if c == 'Ó' || c == 'Ò' || c == 'Ô' || c == 'Õ' || c == 'Ö' {
        'O'
    } else if c == 'Ú' || c == 'Ù' || c == 'Û' || c == 'Ü' {
        'U'
    } else if c == 'Ý' {
        'Y'
    } else if c == 'Ç' {
        'C'
    } else if c == 'Ñ' {
        'N'
    } else {
        c
    }
}

pub fn strip_diacritic(c: char) -> (r: char)
    ensures
        r == base_letter(c),
{
    if c == 'á' || c == 'à' || c == 'â' || c == 'ã' || c == 'ä' {
        'a'
    } else if c == 'é' || c == 'è' || c == 'ê' || c == 'ë' {
        'e'
    } else if c == 'í' || c == 'ì' || c == 'î' || c == 'ï' {
        'i'
    } else if c == 'ó' || c == 'ò' || c == 'ô' || c == 'õ' || c == 'ö' {
        'o'
    } else if c == 'ú' || c == 'ù' || c == 'û' || c == 'ü' {
        'u'
    } else if c == 'ý' || c == 'ÿ' {
        'y'
    } else if c == 'ç' {
        'c'
    } else if c == 'ñ' {
        'n'
    } else if c == 'Á' || c == 'À' || c == 'Â' || c == 'Ã' || c == 'Ä' {
        'A'
    } else if c == 'É' || c == 'È' || c == 'Ê' || c == 'Ë' {
        'E'
    } else if c == 'Í' || c == 'Ì' || c == 'Î' || c == 'Ï' {
        'I'
    } else if c == 'Ó' || c == 'Ò' || c == 'Ô' || c == 'Õ' || c == 'Ö' {
        'O'
    } else if c == 'Ú' || c == 'Ù' || c == 'Û' || c == 'Ü' {
        'U'
    } else if c == 'Ý' {
        'Y'
    } else if c == 'Ç' {
        'C'
    } else if c == 'Ñ' {
        'N'
    } else {
        c
    }
}

/// `s` without accents: combining marks dropped, accented letters replaced
/// by their base letter.
pub open spec fn unaccented(s: Seq<char>) -> Seq<char>
    decreases s.len(),
{
    if s.len() == 0 {
        Seq::empty()
    } else if combining(s.last()) {
        unaccented(s.drop_last())
    } else {
        unaccented(s.drop_last()).push(base_letter(s.last()))
    }
}

/// Portuguese diacritics to base letter; combining marks are dropped.
pub fn sem_acento(s: &str) -> (r: String)
    ensures
        r@ == unaccented(s@),
{
    let v = str_chars(s);
    let mut out = String::new();
    let mut k: usize = 0;
    while k < v.len()
        invariant
            v@ == s@,
            0 <= k <= v@.len(),
            out@ == unaccented(s@.take(k as int)),
        decreases v@.len() - k,
    {
        let c = v[k];
        assert(s@.take(k + 1).drop_last() =~= s@.take(k as int));
        assert(s@.take(k + 1).last() == c);
        if !is_combining_mark(c) {
            push_char(&mut out, strip_diacritic(c));
        }
        k = k + 1;
    }
    assert(s@.take(v@.len() as int) =~= s@);
    out
}

/// The texts held by `v`.
pub open spec fn texts(v: Seq<String>) -> Seq<Seq<char>> {
    v.map_values(|p: String| p@)
}

/// Name for the pieces that `str::split` cuts `s` into at each `sep`.
pub uninterp spec fn split_pieces(s: Seq<char>, sep: Seq<char>) -> Seq<Seq<char>>;

/// Calls `str::split` with the text pattern `sep` and keeps every piece,
/// empty ones too; when `sep` does not occur in `s`, the one piece is `s`.
#[verifier::external_body]
fn str_split(s: &str, sep: &str) -> (r: Vec<String>)
    ensures
        texts(r@) == split_pieces(s@, sep@),
        !has_sub(s@, sep@) ==> texts(r@) == seq![s@],
{
    let mut out = Vec::new();
    for piece in s.split(sep) {
        out.push(piece.to_string());
    }
    out
}

/// What `separe(s, sep)` gives: each character of `s` on its own when `sep`
/// is empty, else the pieces between the occurrences of `sep`.
pub open spec fn separated(s: Seq<char>, sep: Seq<char>) -> Seq<Seq<char>> {
    if sep.len() == 0 {
        s.map_values(|c: char| seq![c])
    } else {
        split_pieces(s, sep)
    }
}

/// `separe`: the text `s` cut at each `sep` (empty pieces kept), or into its
/// characters when `sep` is empty.
pub fn separe(s: &str, sep: &str) -> (r: Vec<String>)
    ensures
        texts(r@) == separated(s@, sep@),
{
    let sv = str_chars(sep);
    if sv.len() > 0 {
        return str_split(s, sep);
    }
    let v = str_chars(s);
    let mut out: Vec<String> = Vec::new();
    let mut k: usize = 0;
    while k < v.len()
        invariant
            v@ == s@,
            0 <= k <= v@.len(),
            texts(out@) == s@.take(k as int).map_values(|c: char| seq![c]),
        decreases v@.len() - k,
    {
        let ghost before = out@;
        assert(texts(before).len() == before.len());
        assert(before.len() == k);
        let mut one = String::new();
        push_char(&mut one, v[k]);
        assert(one@ =~= seq![v@[k as int]]);
        out.push(one);
        assert(out@ == before.push(one));
        k = k + 1;
        assert forall|i: int| 0 <= i < k implies #[trigger] texts(out@)[i] == s@.take(k as int).map_values(
            |c: char| seq![c],
        )[i] by {
            if i < k - 1 {
                assert(out@[i] == before[i]);
                assert(texts(before)[i] == s@.take(k - 1).map_values(|c: char| seq![c])[i]);
            }
        }
        assert(texts(out@) =~= s@.take(k as int).map_values(|c: char| seq![c]));
    }
    assert(s@.take(v@.len() as int) =~= s@);
    out
}

/// `parts` one after another, with `sep` between each two.
pub open spec fn joined_with(parts: Seq<Seq<char>>, sep: Seq<char>) -> Seq<char>
    decreases parts.len(),
{
    if parts.len() == 0 {
        Seq::empty()
    } else if parts.len() == 1 {
        parts[0]
    } else {
        joined_with(parts.drop_last(), sep) + sep + parts.last()
    }
}

/// `junte` on texts: `parts` joined with `sep` between each two.
pub fn junte(parts: &Vec<String>, sep: &str) -> (r: String)
    ensures
        r@ == joined_with(texts(parts@), sep@),
{
    let mut out = String::new();
    let mut k: usize = 0;
    while k < parts.len()
        invariant
            0 <= k <= parts@.len(),
            out@ == joined_with(texts(parts@).take(k as int), sep@),
        decreases parts@.len() - k,
    {
        assert(texts(parts@).take(k + 1).drop_last() =~= texts(parts@).take(k as int));
        if k > 0 {
            push_str(&mut out, sep);
        }
        push_str(&mut out, parts[k].as_str());
        k = k + 1;
    }
    assert(texts(parts@).take(parts@.len() as int) =~= texts(parts@));
    out
}

/// The reference page of a native function.
#[derive(Debug, Clone)]
pub struct BuiltinDoc {
    pub name: String,
    pub sig: String,
    pub summary: String,
    pub example: String,
}

fn doc(name: &str, sig: &str, summary: &str, example: &str) -> (d: BuiltinDoc)
    ensures
        page_view(d) == (name@, sig@, summary@, example@),
{
    BuiltinDoc {
        name: name.to_owned(),
        sig: sig.to_owned(),
        summary: summary.to_owned(),
        example: example.to_owned(),
    }
}

/// A reference page as text: the function's name, its signature, a summary
/// and an example.
pub open spec fn page_view(d: BuiltinDoc) -> (Seq<char>, Seq<char>, Seq<char>, Seq<char>) {
    (d.name@, d.sig@, d.summary@, d.example@)
}

/// The reference pages of the native functions, in order.
pub open spec fn doc_pages() -> Seq<(Seq<char>, Seq<char>, Seq<char>, Seq<char>)> {
    seq![
        ("escreva"@, "escreva(valor, ...)"@, "Imprime os argumentos separados por espaço e quebra a linha."@, r#"escreva("Olá", 10)"#@),
        ("escreva_erro"@, "escreva_erro(valor, ...)"@, "Como escreva, mas na saída de erro (stderr). Não vai para arquivos com >."@, r#"escreva_erro("nome vazio")"#@),
        ("sair"@, "sair()  ou  sair(codigo)"@, "Encerra o programa. Sem argumento, código 0; sair(1) indica falha."@, r#"se nome == "" { sair(1) }"#@),
        ("leia"@, "leia()  ou  leia(prompt)"@, "Lê uma linha do teclado (sem o Enter). Prompt opcional."@, r#"nome = leia("Seu nome:")"#@),
        ("leia_linhas"@, "leia_linhas() -> lista"@, "Lê todas as linhas da entrada padrão (pipe/arquivo) até o fim."@, r#"para linha em leia_linhas() { escreva(linha) }"#@),
        ("eh_terminal"@, "eh_terminal() -> bool"@, "Verdadeiro se a entrada é o teclado (não um pipe). Também é_terminal()."@, r#"se eh_terminal() { nome = leia("Nome: ") }"#@),
        ("numero"@, "numero(texto|numero) -> numero"@, "Transforma texto em número (aceita 3.14 ou 3,14). Erro se não for número."@, r#"idade = numero(leia("Idade: ")) se_falhar 0"#@),
        ("formato"@, r#"formato("pt")  ou  formato("en")"#@, "Escolhe o padrão de texto de números: pt-BR (1.000,5) ou en-US (1,000.5)."@, r#"formato("en")"#@),
        ("transposta"@, "transposta(matriz) -> matriz"@, "Troca linhas por colunas."@, "transposta(A)"@),
        ("det"@, "det(matriz) -> numero"@, "Determinante (1×1, 2×2 ou 3×3)."@, "det(A)"@),
        ("identidade"@, "identidade(n) -> matriz"@, "Matriz identidade n×n."@, "identidade(3)"@),
        ("raiz"@, "raiz(numero) -> numero"@, "Raiz quadrada. Erro se o número for negativo (use se_falhar)."@, "raiz(9)    // 3"@),
        ("tamanho"@, "tamanho(texto|lista|mapa) -> numero"@, "Quantidade de caracteres, itens ou pares."@, r#"tamanho("olá")    // 3"#@),
        ("primeiro"@, "primeiro(lista) -> valor"@, "Primeiro elemento da lista (índice 1). Erro se vazia."@, "primeiro([10, 20])    // 10"@),
        ("ultimo"@, "ultimo(lista) -> valor"@, "Último elemento da lista. Erro se vazia."@, "ultimo([10, 20])    // 20"@),
        ("maiuscula"@, "maiuscula(texto) -> texto"@, "Copia o texto em letras maiúsculas."@, r#"maiuscula("olá")    // "OLÁ""#@),
        ("minuscula"@, "minuscula(texto) -> texto"@, "Copia o texto em letras minúsculas."@, r#"minuscula("Olá")    // "olá""#@),
        ("sem_acento"@, "sem_acento(texto) -> texto"@, "Tira acentos e cedilha: ã/á→a, é→e, ç→c. Não muda maiúscula."@, r#"sem_acento("São Paulo")    // "Sao Paulo""#@),
        ("remova"@, "remova(lista|texto, i)  ou  remova(..., inicio, fim)  ou  remova(mapa, chave)"@, "Devolve uma cópia sem o índice/faixa (1…n) ou sem a chave do mapa."@, r#"xs = xs.remova(2)    // sem o 2º item"#@),
        ("substitua"@, "substitua(texto, antigo, novo) -> texto"@, "Troca todas as ocorrências de antigo por novo."@, r#"substitua("aa", "a", "b")    // "bb""#@),
        ("separe"@, "separe(texto, separador) -> lista"@, "Parte o texto. Separador \"\" gera um item por caractere."@, r#"separe("a,b", ",")    // ["a", "b"]"#@),
        ("junte"@, "junte(lista, separador) -> texto"@, "Junta os itens da lista com o separador no meio."@, r#"junte(["a", "b"], "-")    // "a-b""#@),
        ("limpe"@, "limpe(texto) -> texto"@, "Remove espaços do começo e do fim."@, r#"limpe("  x  ")    // "x""#@),
        ("leia_arquivo"@, "leia_arquivo(caminho) -> lista"@, "Lê o arquivo; cada linha vira um texto (sem \\n)."@, r#"leia_arquivo("dados.txt") se_falhar []"#@),
        ("salve_arquivo"@, "salve_arquivo(caminho, linhas)"@, "Grava a lista de textos, substituindo o arquivo."@, r#"salve_arquivo("saida.txt", ["a", "b"])"#@),
        ("adicione_arquivo"@, "adicione_arquivo(caminho, linhas)"@, "Acrescenta linhas no fim do arquivo (cria se não existir)."@, r#"adicione_arquivo("saida.txt", ["c"])"#@),
        ("leia_csv"@, "leia_csv(caminho) -> lista"@, "Lê CSV simples (vírgula, sem aspas). Lista de listas de textos."@, r#"leia_csv("notas.csv")"#@),
        ("salve_csv"@, "salve_csv(caminho, dados)"@, "Grava uma lista de listas como CSV."@, r#"salve_csv("saida.csv", [["Ana", 25]])"#@)
    ]
}

/// The names of the native functions that have a reference page, in order.
pub open spec fn doc_names() -> Seq<Seq<char>> {
    doc_pages().map_values(|p: (Seq<char>, Seq<char>, Seq<char>, Seq<char>)| p.0)
}

/// The reference pages of the native functions, in the order of [`doc_pages`].
pub fn builtin_docs() -> (v: Vec<BuiltinDoc>)
    ensures
        v@.len() == doc_pages().len(),
        forall|k: int| 0 <= k < v@.len() ==> #[trigger] page_view(v@[k]) == doc_pages()[k],
{
    let mut v: Vec<BuiltinDoc> = Vec::new();
    v.push(doc("escreva", "escreva(valor, ...)", "Imprime os argumentos separados por espaço e quebra a linha.", r#"escreva("Olá", 10)"#));
    v.push(doc("escreva_erro", "escreva_erro(valor, ...)", "Como escreva, mas na saída de erro (stderr). Não vai para arquivos com >.", r#"escreva_erro("nome vazio")"#));
    v.push(doc("sair", "sair()  ou  sair(codigo)", "Encerra o programa. Sem argumento, código 0; sair(1) indica falha.", r#"se nome == "" { sair(1) }"#));
    v.push(doc("leia", "leia()  ou  leia(prompt)", "Lê uma linha do teclado (sem o Enter). Prompt opcional.", r#"nome = leia("Seu nome:")"#));
    v.push(doc("leia_linhas", "leia_linhas() -> lista", "Lê todas as linhas da entrada padrão (pipe/arquivo) até o fim.", r#"para linha em leia_linhas() { escreva(linha) }"#));
    v.push(doc("eh_terminal", "eh_terminal() -> bool", "Verdadeiro se a entrada é o teclado (não um pipe). Também é_terminal().", r#"se eh_terminal() { nome = leia("Nome: ") }"#));
    v.push(doc("numero", "numero(texto|numero) -> numero", "Transforma texto em número (aceita 3.14 ou 3,14). Erro se não for número.", r#"idade = numero(leia("Idade: ")) se_falhar 0"#));
    v.push(doc("formato", r#"formato("pt")  ou  formato("en")"#, "Escolhe o padrão de texto de números: pt-BR (1.000,5) ou en-US (1,000.5).", r#"formato("en")"#));
    v.push(doc("transposta", "transposta(matriz) -> matriz", "Troca linhas por colunas.", "transposta(A)"));
    v.push(doc("det", "det(matriz) -> numero", "Determinante (1×1, 2×2 ou 3×3).", "det(A)"));
    v.push(doc("identidade", "identidade(n) -> matriz", "Matriz identidade n×n.", "identidade(3)"));
    v.push(doc("raiz", "raiz(numero) -> numero", "Raiz quadrada. Erro se o número for negativo (use se_falhar).", "raiz(9)    // 3"));
    v.push(doc("tamanho", "tamanho(texto|lista|mapa) -> numero", "Quantidade de caracteres, itens ou pares.", r#"tamanho("olá")    // 3"#));
    v.push(doc("primeiro", "primeiro(lista) -> valor", "Primeiro elemento da lista (índice 1). Erro se vazia.", "primeiro([10, 20])    // 10"));
    v.push(doc("ultimo", "ultimo(lista) -> valor", "Último elemento da lista. Erro se vazia.", "ultimo([10, 20])    // 20"));
    v.push(doc("maiuscula", "maiuscula(texto) -> texto", "Copia o texto em letras maiúsculas.", r#"maiuscula("olá")    // "OLÁ""#));
    v.push(doc("minuscula", "minuscula(texto) -> texto", "Copia o texto em letras minúsculas.", r#"minuscula("Olá")    // "olá""#));
    v.push(doc("sem_acento", "sem_acento(texto) -> texto", "Tira acentos e cedilha: ã/á→a, é→e, ç→c. Não muda maiúscula.", r#"sem_acento("São Paulo")    // "Sao Paulo""#));
    v.push(doc("remova", "remova(lista|texto, i)  ou  remova(..., inicio, fim)  ou  remova(mapa, chave)", "Devolve uma cópia sem o índice/faixa (1…n) ou sem a chave do mapa.", r#"xs = xs.remova(2)    // sem o 2º item"#));
    v.push(doc("substitua", "substitua(texto, antigo, novo) -> texto", "Troca todas as ocorrências de antigo por novo.", r#"substitua("aa", "a", "b")    // "bb""#));
    v.push(doc("separe", "separe(texto, separador) -> lista", "Parte o texto. Separador \"\" gera um item por caractere.", r#"separe("a,b", ",")    // ["a", "b"]"#));
    v.push(doc("junte", "junte(lista, separador) -> texto", "Junta os itens da lista com o separador no meio.", r#"junte(["a", "b"], "-")    // "a-b""#));
    v.push(doc("limpe", "limpe(texto) -> texto", "Remove espaços do começo e do fim.", r#"limpe("  x  ")    // "x""#));
    v.push(doc("leia_arquivo", "leia_arquivo(caminho) -> lista", "Lê o arquivo; cada linha vira um texto (sem \\n).", r#"leia_arquivo("dados.txt") se_falhar []"#));
    v.push(doc("salve_arquivo", "salve_arquivo(caminho, linhas)", "Grava a lista de textos, substituindo o arquivo.", r#"salve_arquivo("saida.txt", ["a", "b"])"#));
    v.push(doc("adicione_arquivo", "adicione_arquivo(caminho, linhas)", "Acrescenta linhas no fim do arquivo (cria se não existir).", r#"adicione_arquivo("saida.txt", ["c"])"#));
    v.push(doc("leia_csv", "leia_csv(caminho) -> lista", "Lê CSV simples (vírgula, sem aspas). Lista de listas de textos.", r#"leia_csv("notas.csv")"#));
    v.push(doc("salve_csv", "salve_csv(caminho, dados)", "Grava uma lista de listas como CSV.", r#"salve_csv("saida.csv", [["Ana", 25]])"#));
    assert(v@.map_values(|d: BuiltinDoc| page_view(d)) =~= doc_pages());
    proof {
        assert forall|k: int| 0 <= k < v@.len() implies #[trigger] page_view(v@[k]) == doc_pages()[k] by {
            assert(v@.map_values(|d: BuiltinDoc| page_view(d))[k] == page_view(v@[k]));
        }
    }
    v
}

/// The first reference page, from the `k`-th on, of the function named `n`.
pub open spec fn page_from(n: Seq<char>, k: int) -> Option<(Seq<char>, Seq<char>, Seq<char>, Seq<char>)>
    decreases doc_pages().len() - k,
{
    if k < 0 || k >= doc_pages().len() {
        None
    } else if doc_pages()[k].0 == n {
        Some(doc_pages()[k])
    } else {
        page_from(n, k + 1)
    }
}

/// The reference page of the function named `n`, if there is one.
pub open spec fn page_named(n: Seq<char>) -> Option<(Seq<char>, Seq<char>, Seq<char>, Seq<char>)> {
    page_from(n, 0)
}

/// The page name for `name`: `é_terminal` is documented as `eh_terminal`.
pub open spec fn doc_key(name: Seq<char>) -> Seq<char> {
    if name == "é_terminal"@ {
        "eh_terminal"@
    } else {
        name
    }
}

/// The reference page of the native function `name`, if it has one.
pub fn lookup_builtin_doc(name: &str) -> (r: Option<BuiltinDoc>)
    ensures
        r is Some <==> doc_names().contains(doc_key(name@)),
        r matches Some(d) ==> d.name@ == doc_key(name@) && doc_pages().contains(page_view(d)),
        match r {
            Some(d) => page_named(doc_key(name@)) == Some(page_view(d)),
            None => page_named(doc_key(name@)) is None,
        },
{
    let key = if text_is(name, "é_terminal") {
        "eh_terminal"
    } else {
        name
    };
    let mut docs = builtin_docs();
    let mut k: usize = 0;
    while k < docs.len()
        invariant
            key@ == doc_key(name@),
            docs@.len() == doc_pages().len(),
            forall|j: int| 0 <= j < docs@.len() ==> #[trigger] page_view(docs@[j]) == doc_pages()[j],
            0 <= k <= docs@.len(),
            forall|j: int| 0 <= j < k ==> doc_names()[j] != key@,
            page_named(key@) == page_from(key@, k as int),
        decreases docs@.len() - k,
    {
        assert(doc_names()[k as int] == page_view(docs@[k as int]).0);
        if text_is(docs[k].name.as_str(), key) {
            assert(doc_names()[k as int] == key@);
            let ghost page = page_view(docs@[k as int]);
            assert(doc_pages()[k as int] == page);
            let d = docs.remove(k);
            assert(doc_pages().contains(page_view(d)));
            return Some(d);
        }
        k = k + 1;
    }
    None
}


proof fn lemma_base_letter_fixed(c: char)
    requires
        !combining(c),
    ensures
        base_letter(base_letter(c)) == base_letter(c),
        !combining(base_letter(c)),
{
}

/// Taking the accents away twice changes nothing more than taking them
/// away once.
pub proof fn law_sem_acento_idempotent(s: Seq<char>)
    ensures
        unaccented(unaccented(s)) == unaccented(s),
    decreases s.len(),
{
    if s.len() > 0 {
        law_sem_acento_idempotent(s.drop_last());
        if !combining(s.last()) {
            let u = unaccented(s);
            let b = base_letter(s.last());
            lemma_base_letter_fixed(s.last());
            assert(u.drop_last() =~= unaccented(s.drop_last()));
            assert(u.last() == b);
        }
    }
}

} // verus!
