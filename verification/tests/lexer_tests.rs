use scada::lexer::{
    bit, i16, i32v, is_ident, map_call1, map_call2, map_call3, u16, u32, Call1, Call2, Call3, ExprTokenizer, TokKind,
    Tokenizer,
};

fn kinds_and_texts_script(src: &str) -> Vec<(TokKind, String)> {
    let mut t = Tokenizer::new(src);
    let mut out = Vec::new();
    for _ in 0..64 {
        let tok = t.next();
        let done = tok.kind == TokKind::Eof;
        out.push((tok.kind, tok.text.clone()));
        if done {
            break;
        }
    }
    out
}

#[test]
fn tokenizer_reads_statements_and_skips_comments() {
    let toks = kinds_and_texts_script("let a = 1.5e3; # note\n// other\nreg(1001) = a<<2;");
    let texts: Vec<&str> = toks.iter().map(|(_, s)| s.as_str()).collect();
    assert_eq!(texts, vec!["let", "a", "=", "1.5e3", ";", "reg", "(", "1001", ")", "=", "a", "<<", "2", ";", ""]);
    assert_eq!(toks[0].0, TokKind::Ident);
    assert_eq!(toks[3].0, TokKind::Num);
    assert_eq!(toks[11].0, TokKind::Sym);
    assert_eq!(toks[14].0, TokKind::Eof);
}

#[test]
fn tokenizer_number_forms() {
    let texts: Vec<String> = kinds_and_texts_script(".5 7. 2e 3e+ 4E-2").into_iter().map(|(_, s)| s).collect();
    assert_eq!(texts, vec![".5", "7.", "2", "e", "3", "e", "+", "4E-2", ""]);
}

#[test]
fn tokenizer_peek_ahead_and_expect() {
    let mut t = Tokenizer::new("for ( let i = 0");
    assert!(t.is_kw("for"));
    assert!(t.peek_ahead_text(1, "("));
    assert!(t.peek_ahead_text(2, "let"));
    assert!(!t.peek_ahead_text(2, "i"));
    assert!(t.peek_text("for"));
    assert_eq!(t.expect("if").err(), Some("SCRIPT: expected \"if\", got \"for\"".to_string()));
    assert!(t.expect("for").is_ok());
    assert_eq!(t.peek().text, "(");
}

#[test]
fn unknown_byte_is_a_symbol_that_does_not_advance() {
    let mut t = Tokenizer::new("@x");
    let a = t.next();
    assert_eq!((a.kind, a.text.as_str(), a.start, a.end), (TokKind::Sym, "@", 0, 1));
    let b = t.next();
    assert_eq!(b.text, "@");
}

#[test]
fn expr_tokenizer_treats_hash_as_symbol() {
    let mut t = ExprTokenizer::new(" a # b ");
    assert_eq!(t.next().text, "a");
    assert!(t.peek_text("#"));
    assert_eq!(t.expect("x").err(), Some("SCRIPT expr: expected \"x\", got \"#\"".to_string()));
}

#[test]
fn identifiers() {
    assert!(is_ident("_a1"));
    assert!(is_ident("Abc"));
    assert!(!is_ident("1a"));
    assert!(!is_ident(""));
    assert!(!is_ident("a-b"));
}

#[test]
fn builtin_names() {
    assert_eq!(map_call1("dt2unix"), Ok(Call1::Dt2Unix));
    assert_eq!(map_call1("round"), Ok(Call1::Round));
    assert_eq!(map_call1("nope"), Err("SCRIPT expr: unknown function \"nope\"".to_string()));
    assert_eq!(map_call2("pow"), Ok(Call2::Pow));
    assert!(map_call2("u16").is_err());
    assert_eq!(map_call3("clamp"), Ok(Call3::Clamp));
    assert!(map_call3("min").is_err());
}

#[test]
fn word_accessors() {
    let w = [0x8001u16, 0x0002, 0xFFFF];
    assert_eq!(u16(&w, 0), 0x8001);
    assert_eq!(u16(&w, 3), 0);
    assert_eq!(u16(&w, -1), 0);
    assert_eq!(i16(&w, 2), -1);
    assert_eq!(u32(&w, 0, true), 0x8001_0002);
    assert_eq!(u32(&w, 0, false), 0x0002_8001);
    assert_eq!(u32(&w, 2, true), 0);
    assert_eq!(i32v(&w, 0, true), 0x8001_0002i64 - 0x1_0000_0000);
    assert_eq!(bit(&w, 0, 15), 1);
    assert_eq!(bit(&w, 0, 1), 0);
    assert_eq!(bit(&w, 0, 16), 0);
}
