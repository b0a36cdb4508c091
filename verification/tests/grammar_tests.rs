use recipe_parser::blocks::ordered_list_bullet;
use recipe_parser::blocks::unordered_list;
use recipe_parser::blocks::unordered_list_bullet;
use recipe_parser::blocks::unordered_list_item;
use recipe_parser::elem::MdElement;
use recipe_parser::elem::Recipe;
use recipe_parser::inline::md_elem_inside;
use recipe_parser::inline::md_emphasis;
use recipe_parser::inline::md_special_text;
use recipe_parser::inline::md_strong;
use recipe_parser::inline::md_text;
use recipe_parser::parser::dummy_recipes;
use recipe_parser::parser::parse;
use recipe_parser::render::render_fragment;
use recipe_parser::render::render_recipes;

#[test]
fn round_trip_dummy_recipes() {
    let recipes = dummy_recipes();
    let rendered = render_recipes(&recipes);
    let reparsed = parse(&rendered).unwrap();
    assert_eq!(reparsed, recipes);
}

#[test]
fn round_trip_parsed_recipes() {
    let inp = "Pick one of these:\n\n1. **rec1:**\n   - a.\n   - b.\n\n2. *rec2:* simple\n   - c.\n\ntrailing text";
    let first = parse(inp).unwrap();
    let rendered = render_recipes(&first);
    let second = parse(&rendered).unwrap();
    assert_eq!(second, first);
}

#[test]
fn render_fragment_syntax() {
    let frag = vec![
        MdElement::Text("mix ".to_string()),
        MdElement::Strong("well".to_string()),
        MdElement::Text(" then ".to_string()),
        MdElement::Em("rest".to_string()),
    ];
    let rendered = render_fragment(&frag);
    assert_eq!(rendered, "mix **well** then *rest*");
}

#[test]
fn foreword_is_discarded() {
    let inp = "Intro text.\n\n1. **rec1:**\n   - a.\n   - b.\n\nClosing text.";
    let r = parse(inp).unwrap();
    assert_eq!(
        r,
        vec![Recipe {
            name: vec![MdElement::Strong("rec1:".to_string())],
            instructions: vec![
                vec![MdElement::Text("a.".to_string())],
                vec![MdElement::Text("b.".to_string())],
            ]
        }]
    );
}

#[test]
fn fragment_leaves_terminator_unconsumed() {
    let (rest, _) = md_text("abc\n\nrest").unwrap();
    assert!(rest.starts_with("\n\n"));
    let (rest, _) = md_text("abc\n- item").unwrap();
    assert!(rest.starts_with("\n- "));
    let (rest, _) = md_text("abc\n1. item").unwrap();
    assert!(rest.starts_with("\n1. "));
    let (rest, _) = md_text("abc").unwrap();
    assert_eq!(rest, "");
}

#[test]
fn strong_wins_over_emphasis() {
    let (rest, t) = md_text("**x**").unwrap();
    assert_eq!(t, vec![MdElement::Strong("x".to_string())]);
    assert_eq!(rest, "");
    let (rest, t) = md_text("*x*").unwrap();
    assert_eq!(t, vec![MdElement::Em("x".to_string())]);
    assert_eq!(rest, "");
}

#[test]
fn underscore_delimiters() {
    let (rest, t) = md_text("__x__ and _y_").unwrap();
    assert_eq!(
        t,
        vec![
            MdElement::Strong("x".to_string()),
            MdElement::Text(" and ".to_string()),
            MdElement::Em("y".to_string()),
        ]
    );
    assert_eq!(rest, "");
}

#[test]
fn strong_interior_may_hold_single_delimiter() {
    let (rest, strong) = md_strong("**a*b**").unwrap();
    assert_eq!(strong, "a*b");
    assert_eq!(rest, "");
}

#[test]
fn unterminated_strong_truncates_at_blank_line() {
    let (rest, strong) = md_strong("**a\n\nb").unwrap();
    assert_eq!(strong, "a");
    assert_eq!(rest, "\n\nb");
    let (rest, t) = md_text("**a\n\nb").unwrap();
    assert_eq!(t, vec![MdElement::Strong("a".to_string())]);
    assert_eq!(rest, "\n\nb");
}

#[test]
fn unterminated_emphasis_truncates_at_blank_line() {
    let (rest, t) = md_text("*a\n\nb").unwrap();
    assert_eq!(t, vec![MdElement::Em("a".to_string())]);
    assert_eq!(rest, "\n\nb");
}

#[test]
fn unterminated_span_truncates_at_input_end() {
    let (rest, strong) = md_strong("**abc").unwrap();
    assert_eq!(strong, "abc");
    assert_eq!(rest, "");
    let (rest, em) = md_emphasis("*abc").unwrap();
    assert_eq!(em, "abc");
    assert_eq!(rest, "");
}

#[test]
fn elem_inside_truncates_at_input_end() {
    let (rest, inside) = md_elem_inside("**", "no stop here").unwrap();
    assert_eq!(inside, "no stop here");
    assert_eq!(rest, "");
}

#[test]
fn no_list_yields_empty_result() {
    assert_eq!(parse("no lists here at all").unwrap(), vec![]);
    assert_eq!(parse("").unwrap(), vec![]);
    assert_eq!(parse("*stray\ndelimiters_ everywhere*").unwrap(), vec![]);
}

#[test]
fn title_without_instructions_is_dropped() {
    let r = parse("\n1. this is an item here").unwrap();
    assert_eq!(r, vec![]);
}

#[test]
fn mismatches_signal_the_error() {
    assert!(md_strong("plain").is_err());
    assert!(md_emphasis("plain").is_err());
    assert!(md_special_text("plain").is_err());
    assert!(ordered_list_bullet("1. no line break first").is_err());
    assert!(unordered_list_bullet("- no line break first").is_err());
    assert!(unordered_list_item("\nnot a bullet").is_err());
    assert!(unordered_list("\n* wrong marker").is_err());
}

#[test]
fn bullet_digits_and_whitespace() {
    let (rest, digits) = ordered_list_bullet("\n  \t12. x").unwrap();
    assert_eq!(digits, "12");
    assert_eq!(rest, "x");
    let (rest, marker) = unordered_list_bullet("\n   - x").unwrap();
    assert_eq!(marker, "- ");
    assert_eq!(rest, "x");
}

#[test]
fn dummy_recipes_expected_value() {
    let r = dummy_recipes();
    assert_eq!(r.len(), 3);
    assert_eq!(r[0].name, vec![MdElement::Strong("rec1:".to_string())]);
    assert_eq!(r[0].instructions.len(), 5);
    assert_eq!(r[1].name, vec![MdElement::Strong("rec2:".to_string())]);
    assert_eq!(r[1].instructions.len(), 6);
    assert_eq!(r[2].name, vec![MdElement::Strong("rec3:".to_string())]);
    assert_eq!(r[2].instructions.len(), 4);
    assert_eq!(r[2].instructions[3], vec![MdElement::Text("d.".to_string())]);
}

#[test]
fn bare_double_delimiter_is_empty_strong() {
    let (rest, t) = md_text("**").unwrap();
    assert_eq!(t, vec![MdElement::Strong("".to_string())]);
    assert_eq!(rest, "");
}
