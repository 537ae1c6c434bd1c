use raytrace_parallel::todo::ControllerMessage;
use raytrace_parallel::todo::Item;
use raytrace_parallel::todo::ItemList;
use raytrace_parallel::todo::Template;

#[test]
fn item_counter_pluralizes() {
    assert_eq!(Template::item_counter(0), "<strong>0</strong> items left");
    assert_eq!(Template::item_counter(1), "<strong>1</strong> item left");
    assert_eq!(Template::item_counter(42), "<strong>42</strong> items left");
}

#[test]
fn item_list_of_nothing_is_empty() {
    let list = ItemList { items: Vec::new() };
    assert_eq!(Template::item_list(list), "");
}

#[test]
fn item_list_renders_rows_in_order() {
    let list = ItemList {
        items: vec![
            Item { id: String::from("1"), title: String::from("buy milk"), completed: false },
            Item { id: String::from("2"), title: String::from("ship it"), completed: true },
        ],
    };
    let expected = "<li data-id=\"1\"><div class=\"view\">\
<input class=\"toggle\" type=\"checkbox\"><label>buy milk</label>\
<button class=\"destroy\"></button></div></li>\
<li class=\"completed\" data-id=\"2\"><div class=\"view\">\
<input class=\"toggle\" type=\"checkbox\" checked><label>ship it</label>\
<button class=\"destroy\"></button></div></li>";
    assert_eq!(Template::item_list(list), expected);
}

#[test]
fn item_list_escapes_markup_in_titles_and_ids() {
    let list = ItemList {
        items: vec![
            Item {
                id: String::from("a\"b"),
                title: String::from("<b>&'x"),
                completed: false,
            },
        ],
    };
    let expected = "<li data-id=\"a&quot;b\"><div class=\"view\">\
<input class=\"toggle\" type=\"checkbox\">\
<label>&lt;b&gt;&amp;&#x27;x</label>\
<button class=\"destroy\"></button></div></li>";
    assert_eq!(Template::item_list(list), expected);
}

#[test]
fn controller_messages_carry_their_payloads() {
    let m = ControllerMessage::EditItemSave(String::from("3"), String::from("new title"));
    match m {
        ControllerMessage::EditItemSave(id, title) => {
            assert_eq!(id, "3");
            assert_eq!(title, "new title");
        },
        _ => panic!("wrong variant"),
    }
    let m = ControllerMessage::ToggleItem(String::from("3"), true);
    match m {
        ControllerMessage::ToggleItem(_, completed) => assert!(completed),
        _ => panic!("wrong variant"),
    }
}
