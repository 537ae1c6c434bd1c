//! HTML fragments for the todo list screens: a row per item and the
//! "items left" counter, rendered as plain strings with HTML escaping, and
//! the message vocabulary a controller is driven by.

use vstd::prelude::*;
use vstd::string::StrSliceExecFns;
use vstd::string::StringExecFns;

verus! {

/// Relies on `String::push`: appends exactly the given character.
pub assume_specification[ String::push ](s: &mut String, ch: char)
    ensures
        final(s)@ == old(s)@.push(ch),
;

/// One todo entry as the templates see it.
pub struct Item {
    pub id: String,
    pub title: String,
    pub completed: bool,
}

/// The list of todo entries a rendering works over.
pub struct ItemList {
    pub items: Vec<Item>,
}

/// What a controller can be asked to do.
pub enum ControllerMessage {
    AddItem(String),
    SetPage(String),
    EditItemSave(String, String),
    EditItemCancel(String),
    RemoveCompleted(),
    RemoveItem(String),
    ToggleAll(bool),
    ToggleItem(String, bool),
}

/// How one character appears inside an HTML text or attribute position:
/// the five characters with markup meaning become entities, all others
/// stand for themselves.
pub open spec fn escaped_char(c: char) -> Seq<char> {
    if c == '&' {
        seq!['&', 'a', 'm', 'p', ';']
    } else if c == '<' {
        seq!['&', 'l', 't', ';']
    } else if c == '>' {
        seq!['&', 'g', 't', ';']
    } else if c == '"' {
        seq!['&', 'q', 'u', 'o', 't', ';']
    } else if c == '\'' {
        seq!['&', '#', 'x', '2', '7', ';']
    } else {
        seq![c]
    }
}

/// The HTML-escaped form of a text: each character replaced by how it
/// appears in markup.
pub open spec fn html_escape(s: Seq<char>) -> Seq<char>
    decreases s.len(),
{
    if s.len() == 0 {
        Seq::empty()
    } else {
        escaped_char(s[0]) + html_escape(s.subrange(1, s.len() as int))
    }
}

/// The decimal digit character for `d`.
pub open spec fn dec_digit(d: int) -> char {
    if d == 0 {
        '0'
    } else if d == 1 {
        '1'
    } else if d == 2 {
        '2'
    } else if d == 3 {
        '3'
    } else if d == 4 {
        '4'
    } else if d == 5 {
        '5'
    } else if d == 6 {
        '6'
    } else if d == 7 {
        '7'
    } else if d == 8 {
        '8'
    } else {
        '9'
    }
}

/// The decimal writing of a nonnegative number, without leading zeros
/// (zero itself is written "0").
pub open spec fn dec_string(n: int) -> Seq<char>
    decreases n,
{
    if n < 10 {
        seq![dec_digit(n)]
    } else {
        dec_string(n / 10).push(dec_digit(n % 10))
    }
}

/// The row markup for one todo entry: a list element carrying the entry's
/// id, a completed class and a checked toggle when the entry is completed,
/// and the escaped title as its label.
pub open spec fn row_text(id: Seq<char>, title: Seq<char>, completed: bool) -> Seq<char> {
    "<li"@ + (if completed {
        " class=\"completed\""@
    } else {
        Seq::<char>::empty()
    }) + " data-id=\""@ + html_escape(id)
        + "\"><div class=\"view\"><input class=\"toggle\" type=\"checkbox\""@ + (if completed {
        " checked"@
    } else {
        Seq::<char>::empty()
    }) + "><label>"@ + html_escape(title)
        + "</label><button class=\"destroy\"></button></div></li>"@
}

/// The row markup of one item.
pub open spec fn row_of(item: Item) -> Seq<char> {
    row_text(item.id@, item.title@, item.completed)
}

/// The markup of a whole list: the rows of its items, in order.
pub open spec fn item_list_text(items: Seq<Item>) -> Seq<char>
    decreases items.len(),
{
    if items.len() == 0 {
        Seq::empty()
    } else {
        item_list_text(items.drop_last()) + row_of(items.last())
    }
}

/// The "items left" counter markup: the count in bold, with the noun
/// pluralized for every count but one.
pub open spec fn item_counter_text(active_todos: int) -> Seq<char> {
    "<strong>"@ + dec_string(active_todos) + "</strong> item"@ + (if active_todos == 1 {
        Seq::<char>::empty()
    } else {
        "s"@
    }) + " left"@
}

/// Appends the HTML-escaped form of `s`.
fn escape_into(out: &mut String, s: &str)
    ensures
        final(out)@ == old(out)@ + html_escape(s@),
{
    let n = s.unicode_len();
    let mut i: usize = 0;
    while i < n
        invariant
            n == s@.len(),
            i <= n,
            out@ == old(out)@ + html_escape(s@.subrange(0, i as int)),
        decreases n - i,
    {
        let c = s.get_char(i);
        match c {
            '&' => out.append("&amp;"),
            '<' => out.append("&lt;"),
            '>' => out.append("&gt;"),
            '"' => out.append("&quot;"),
            '\'' => out.append("&#x27;"),
            _ => out.push(c),
        }
        proof {
            reveal_strlit("&amp;");
            reveal_strlit("&lt;");
            reveal_strlit("&gt;");
            reveal_strlit("&quot;");
            reveal_strlit("&#x27;");
            lemma_html_escape_snoc(s@, i as int);
        }
        i = i + 1;
    }
    proof {
        assert(s@.subrange(0, n as int) =~= s@);
    }
}

/// Escaping a prefix one character longer appends that character's escaped
/// form.
proof fn lemma_html_escape_snoc(s: Seq<char>, i: int)
    requires
        0 <= i < s.len(),
    ensures
        html_escape(s.subrange(0, i + 1)) == html_escape(s.subrange(0, i)) + escaped_char(s[i]),
    decreases i,
{
    let a = s.subrange(0, i + 1);
    if i == 0 {
        let rest = a.subrange(1, a.len() as int);
        assert(rest =~= Seq::<char>::empty());
        assert(html_escape(rest) == Seq::<char>::empty());
        assert(a[0] == s[0]);
        assert(html_escape(a) == escaped_char(s[0]) + html_escape(rest));
        assert(s.subrange(0, 0) =~= Seq::<char>::empty());
        assert(html_escape(s.subrange(0, 0)) == Seq::<char>::empty());
        assert(escaped_char(s[0]) + Seq::<char>::empty() =~= escaped_char(s[0]));
        assert(Seq::<char>::empty() + escaped_char(s[0]) =~= escaped_char(s[0]));
    } else {
        let t = s.subrange(1, s.len() as int);
        lemma_html_escape_snoc(t, i - 1);
        assert(a.subrange(1, a.len() as int) =~= t.subrange(0, i));
        assert(s.subrange(0, i).subrange(1, i) =~= t.subrange(0, i - 1));
        assert(t.subrange(0, i - 1 + 1) =~= t.subrange(0, i));
        assert(t[i - 1] == s[i]);
        assert(html_escape(a) == escaped_char(s[0]) + html_escape(t.subrange(0, i)));
        assert(html_escape(t.subrange(0, i)) == html_escape(t.subrange(0, i - 1)) + escaped_char(
            s[i],
        ));
        assert(html_escape(s.subrange(0, i)) == escaped_char(s[0]) + html_escape(
            t.subrange(0, i - 1),
        ));
        assert(escaped_char(s[0]) + (html_escape(t.subrange(0, i - 1)) + escaped_char(s[i]))
            =~= (escaped_char(s[0]) + html_escape(t.subrange(0, i - 1))) + escaped_char(s[i]));
    }
}

/// Appends the decimal writing of `n`.
fn push_decimal(out: &mut String, n: usize)
    ensures
        final(out)@ == old(out)@ + dec_string(n as int),
    decreases n,
{
    if n >= 10 {
        push_decimal(out, n / 10);
    }
    let d = n % 10;
    let c = if d == 0 {
        '0'
    } else if d == 1 {
        '1'
    } else if d == 2 {
        '2'
    } else if d == 3 {
        '3'
    } else if d == 4 {
        '4'
    } else if d == 5 {
        '5'
    } else if d == 6 {
        '6'
    } else if d == 7 {
        '7'
    } else if d == 8 {
        '8'
    } else {
        '9'
    };
    out.push(c);
}

/// The string templates of the todo screens.
pub struct Template {}

impl Template {
    /// Renders the rows of every item of the list, in order, as one
    /// markup string.
    pub fn item_list(items: ItemList) -> (r: String)
        ensures
            r@ == item_list_text(items.items@),
    {
        let mut output = String::new();
        let list = items.items;
        let n = list.len();
        let mut i: usize = 0;
        while i < n
            invariant
                n == list@.len(),
                i <= n,
                output@ == item_list_text(list@.subrange(0, i as int)),
            decreases n - i,
        {
            let item = &list[i];
            output.append("<li");
            if item.completed {
                output.append(" class=\"completed\"");
            }
            output.append(" data-id=\"");
            escape_into(&mut output, item.id.as_str());
            output.append("\"><div class=\"view\"><input class=\"toggle\" type=\"checkbox\"");
            if item.completed {
                output.append(" checked");
            }
            output.append("><label>");
            escape_into(&mut output, item.title.as_str());
            output.append("</label><button class=\"destroy\"></button></div></li>");
            proof {
                let pre = list@.subrange(0, i as int);
                let cur = list@.subrange(0, i + 1);
                assert(cur.drop_last() =~= pre);
                assert(cur.last() == list@[i as int]);
                assert(output@ =~= item_list_text(pre) + row_of(list@[i as int]));
            }
            i = i + 1;
        }
        proof {
            assert(list@.subrange(0, n as int) =~= list@);
        }
        output
    }

    /// Renders the "items left" counter for the given count of active
    /// todos.
    pub fn item_counter(active_todos: usize) -> (r: String)
        ensures
            r@ == item_counter_text(active_todos as int),
    {
        let mut r = String::new();
        r.append("<strong>");
        push_decimal(&mut r, active_todos);
        r.append("</strong> item");
        if active_todos != 1 {
            r.append("s");
        }
        r.append(" left");
        r
    }
}

} // verus!
