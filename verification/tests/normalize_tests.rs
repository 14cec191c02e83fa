use indexador::text::normalize;

#[test]
fn test_leer_y_limpiar_archivo() {
    let resultado = normalize("  Hola Mundo \r\n");
    assert_eq!(resultado, "Hola Mundo");
}

#[test]
fn normalize_is_idempotent_on_a_sample() {
    let s = "  primera linea\r\nsegunda linea \r\n";
    let once = normalize(s);
    let twice = normalize(&once);
    assert_eq!(twice, once);
}

#[test]
fn normalize_leaves_clean_text_unchanged() {
    let s = "Hola\nMundo";
    assert_eq!(normalize(s), s);
}

#[test]
fn normalize_replaces_inner_windows_breaks() {
    assert_eq!(normalize("x\r\ny"), "x\ny");
}

#[test]
fn normalize_keeps_a_lone_carriage_return() {
    assert_eq!(normalize("a\rb"), "a\rb");
}

#[test]
fn normalize_dissolves_a_carriage_return_run_before_a_line_feed() {
    assert_eq!(normalize("a\r\r\nb"), "a\nb");
    let s = "a\r\r\nb";
    let once = normalize(s);
    assert_eq!(normalize(&once), once);
}

#[test]
fn normalize_trims_unicode_white_space() {
    assert_eq!(normalize("\u{00A0}hola\u{3000}"), "hola");
}

#[test]
fn normalize_of_blank_text_is_empty() {
    assert_eq!(normalize(""), "");
    assert_eq!(normalize("  \r\n \t"), "");
}
