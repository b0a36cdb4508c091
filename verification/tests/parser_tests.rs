use recipe_parser::blocks::ordered_list_bullet;
use recipe_parser::blocks::ordered_list_item;
use recipe_parser::blocks::unordered_list;
use recipe_parser::elem::MdElement;
use recipe_parser::elem::Recipe;
use recipe_parser::inline::md_elem_inside;
use recipe_parser::inline::md_plain_text;
use recipe_parser::inline::md_strong;
use recipe_parser::inline::md_text;
use recipe_parser::parser::parse;

#[test]
fn test_ordered_list_bullet() {
    let (rest, bullet) = ordered_list_bullet("\n1. this is an item here").unwrap();
    assert_eq!(bullet, "1");
    assert_eq!(rest, "this is an item here");
}

#[test]
fn test_ordered_list_item() {
    let (rest, li) = ordered_list_item("\n1. this is an item here").unwrap();
    println!("rest: {:?} li: {:?}", rest, li);
    assert_eq!(li, vec![MdElement::Text("this is an item here".to_string())]);
    assert_eq!(rest, "");
}

#[test]
fn test_ordered_list_item_multiline() {
    let (rest, li) = ordered_list_item("\n1. this is an item here\nlong line").unwrap();
    assert_eq!(li, vec![MdElement::Text("this is an item here\nlong line".to_string())]);
    assert_eq!(rest, "");
}

#[test]
fn test_ordered_list_item_multiline_ended() {
    let (rest, li) = ordered_list_item("\n1. this is an item here\nlong line\n\ntext").unwrap();
    assert_eq!(li, vec![MdElement::Text("this is an item here\nlong line".to_string())]);
    assert_eq!(rest, "\n\ntext");
}

#[test]
fn test_ordered_list_item_empty() {
    let res = ordered_list_item("\nnot a list");
    assert!(res.is_err());
}

#[test]
fn test_ordered_list_item_with_special_text() {
    let (rest, li) = ordered_list_item("\n1. this is an **item** *here\nlong *line\n\ntext")
        .unwrap();
    assert_eq!(
        li,
        vec![
            MdElement::Text("this is an ".to_string()),
            MdElement::Strong("item".to_string()),
            MdElement::Text(" ".to_string()),
            MdElement::Em("here\nlong ".to_string()),
            MdElement::Text("line".to_string())
        ]
    );
    assert_eq!(rest, "\n\ntext");
}

#[test]
fn test_unordered_list() {
    let (rest, li) =
        unordered_list("\n- this is an item here\nlong - line\n- another item\n- another\n\n")
            .unwrap();
    assert_eq!(
        li,
        vec![
            vec![MdElement::Text("this is an item here\nlong - line".to_string())],
            vec![MdElement::Text("another item".to_string())],
            vec![MdElement::Text("another".to_string())],
        ]
    );
    assert_eq!(rest, "\n\n");
}

#[test]
fn test_unordered_list_no_newline_end() {
    let (rest, li) =
        unordered_list("\n- this is an item here\nlong - line\n- another item\n- another")
            .unwrap();
    assert_eq!(
        li,
        vec![
            vec![MdElement::Text("this is an item here\nlong - line".to_string())],
            vec![MdElement::Text("another item".to_string())],
            vec![MdElement::Text("another".to_string())],
        ]
    );
    assert_eq!(rest, "");
}

#[test]
fn test_strong_elem() {
    let (rest, strong) = md_strong("**this is strong** and this is not").unwrap();
    assert_eq!(strong, "this is strong");
    assert_eq!(rest, " and this is not");
}

#[test]
fn test_strong_elem_newline() {
    let (rest, strong) = md_strong("**this is strong\nthis should still be strong** and this is not")
        .unwrap();
    assert_eq!(strong, "this is strong\nthis should still be strong");
    assert_eq!(rest, " and this is not");
}

#[test]
fn test_md_elem_inside_delimited() {
    let res = md_elem_inside("**", "this is strong\nthis should still be strong** and this is not");
    let (rest, strong) = res.unwrap();
    assert_eq!(strong, "this is strong\nthis should still be strong");
    assert_eq!(rest, "** and this is not");
}

#[test]
fn test_md_elem_inside_nl_block() {
    let res = md_elem_inside("**", "this is strong\nthis should still be strong\n\n and this is not");
    let (rest, strong) = res.unwrap();
    assert_eq!(strong, "this is strong\nthis should still be strong");
    assert_eq!(rest, "\n\n and this is not");
}

#[test]
fn test_md_plain_text() {
    let (rest, text) = md_plain_text("this is text\nand this is also\n\nthis is not").unwrap();
    match text {
        MdElement::Text(t) => assert_eq!(t, "this is text\nand this is also"),
        _ => panic!("expected a plain-text span"),
    }
    assert_eq!(rest, "\n\nthis is not");
}

#[test]
fn test_md_plain_text_inline() {
    let (rest, text) = md_plain_text("this is text\nand this is also").unwrap();
    match text {
        MdElement::Text(t) => assert_eq!(t, "this is text\nand this is also"),
        _ => panic!("expected a plain-text span"),
    }
    assert_eq!(rest, "");
}

#[test]
fn test_md_text() {
    let (rest, t) = md_text("what about this *this is an item here*\n1. this not").unwrap();
    assert_eq!(
        t,
        vec![
            MdElement::Text("what about this ".to_string()),
            MdElement::Em("this is an item here".to_string())
        ]
    );
    assert_eq!(rest, "\n1. this not");
}

#[test]
fn test_md_text_empty() {
    let (rest, t) = md_text("\n- what about this *this is an item here*\n1. this not").unwrap();
    assert_eq!(t, vec![]);
    assert_eq!(rest, "\n- what about this *this is an item here*\n1. this not");
}

#[test]
fn test_parse_recipe() {
    let inp = "Sure! Here are a few recipe ideas using:\n\n1. **rec1:**\n   - a.\n   - b.\n   - c.\n   - d.\n   - e.\n\n2. **rec2:**\n   - a.\n   - b.\n   - c.\n   - d.\n   - e.\n   - f.\n\n3. **rec3:**\n   - a.\n   - b.\n   - c.\n   - d.\n\nRemember to adjust. Enjoy your meal!";

    let r = parse(inp).unwrap();

    assert_eq!(
        r,
        vec![
            Recipe {
                name: vec![MdElement::Strong("rec1:".to_owned())],
                instructions: vec![
                    vec![MdElement::Text("a.".to_owned())],
                    vec![MdElement::Text("b.".to_owned())],
                    vec![MdElement::Text("c.".to_owned())],
                    vec![MdElement::Text("d.".to_owned())],
                    vec![MdElement::Text("e.".to_owned())],
                ]
            },
            Recipe {
                name: vec![MdElement::Strong("rec2:".to_owned())],
                instructions: vec![
                    vec![MdElement::Text("a.".to_owned())],
                    vec![MdElement::Text("b.".to_owned())],
                    vec![MdElement::Text("c.".to_owned())],
                    vec![MdElement::Text("d.".to_owned())],
                    vec![MdElement::Text("e.".to_owned())],
                    vec![MdElement::Text("f.".to_owned())],
                ]
            },
            Recipe {
                name: vec![MdElement::Strong("rec3:".to_owned())],
                instructions: vec![
                    vec![MdElement::Text("a.".to_owned())],
                    vec![MdElement::Text("b.".to_owned())],
                    vec![MdElement::Text("c.".to_owned())],
                    vec![MdElement::Text("d.".to_owned())],
                ]
            },
        ]
    );
}

#[test]
fn test_parse_recipe_no_foreword() {
    let inp = "\n\n\n1. **rec1:**\n   - a.\n   - b.\n   - c.\n   - d.\n   - e.\n\n2. **rec2:**\n   - a.\n   - b.\n   - c.\n   - d.\n   - e.\n   - f.\n\n3. **rec3:**\n   - a.\n   - b.\n   - c.\n   - d.\n\nRemember to adjust. Enjoy your meal!";

    let r = parse(inp).unwrap();

    assert_eq!(
        r,
        vec![
            Recipe {
                name: vec![MdElement::Strong("rec1:".to_owned())],
                instructions: vec![
                    vec![MdElement::Text("a.".to_owned())],
                    vec![MdElement::Text("b.".to_owned())],
                    vec![MdElement::Text("c.".to_owned())],
                    vec![MdElement::Text("d.".to_owned())],
                    vec![MdElement::Text("e.".to_owned())],
                ]
            },
            Recipe {
                name: vec![MdElement::Strong("rec2:".to_owned())],
                instructions: vec![
                    vec![MdElement::Text("a.".to_owned())],
                    vec![MdElement::Text("b.".to_owned())],
                    vec![MdElement::Text("c.".to_owned())],
                    vec![MdElement::Text("d.".to_owned())],
                    vec![MdElement::Text("e.".to_owned())],
                    vec![MdElement::Text("f.".to_owned())],
                ]
            },
            Recipe {
                name: vec![MdElement::Strong("rec3:".to_owned())],
                instructions: vec![
                    vec![MdElement::Text("a.".to_owned())],
                    vec![MdElement::Text("b.".to_owned())],
                    vec![MdElement::Text("c.".to_owned())],
                    vec![MdElement::Text("d.".to_owned())],
                ]
            },
        ]
    );
}
