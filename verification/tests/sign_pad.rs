use birei::sign_pad::{compose_svg_document, export_color, extract_svg_inner_markup};

#[test]
fn composes_an_svg_document() {
    let svg = compose_svg_document(320, 160, Some("<path d=\"M0 0\"/>"), "<g></g>");
    assert_eq!(
        svg,
        "<svg xmlns=\"http://www.w3.org/2000/svg\" width=\"320\" height=\"160\" viewBox=\"0 0 320 160\" fill=\"none\"><path d=\"M0 0\"/><g></g></svg>"
    );
    let blank = compose_svg_document(0, 7, Some("  "), "");
    assert_eq!(
        blank,
        "<svg xmlns=\"http://www.w3.org/2000/svg\" width=\"0\" height=\"7\" viewBox=\"0 0 0 7\" fill=\"none\"></svg>"
    );
}

#[test]
fn reads_the_body_of_an_imported_svg() {
    assert_eq!(
        extract_svg_inner_markup("  <SVG width=\"1\"> <g/> </Svg> "),
        Ok("<g/>".to_string())
    );
    assert_eq!(
        extract_svg_inner_markup("<svg><g></g></svg><svg></svg>"),
        Ok("<g></g></svg><svg>".to_string())
    );
    assert_eq!(extract_svg_inner_markup("<div></div>"), Err("Expected an <svg> root element.".to_string()));
    assert_eq!(extract_svg_inner_markup("<svg"), Err("Malformed SVG root element.".to_string()));
    assert_eq!(extract_svg_inner_markup("<svg><g>"), Err("Missing closing </svg> tag.".to_string()));
    assert_eq!(
        extract_svg_inner_markup("<svg</svg>>"),
        Err("SVG document does not contain any valid body markup.".to_string())
    );
}

#[test]
fn exported_documents_load_back() {
    let svg = compose_svg_document(40, 30, Some(" <path/> "), "<g stroke=\"red\"></g>");
    assert_eq!(extract_svg_inner_markup(&svg), Ok("<path/> <g stroke=\"red\"></g>".to_string()));
}

#[test]
fn chooses_the_ink_color() {
    assert_eq!(export_color(Some("  #123 "), Some("red")), "#123");
    assert_eq!(export_color(Some(" "), Some(" red ")), "red");
    assert_eq!(export_color(None, None), "#1f2a2b");
    assert_eq!(export_color(Some(""), Some("")), "#1f2a2b");
}
