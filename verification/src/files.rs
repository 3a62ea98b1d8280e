//! The generated `.c` and `.h` files, and reading the screen's items back
//! from a generated `.c` file.
//!
//! The `.c` file keeps the items as JSON in a comment at its top, so that
//! the design can be loaded again from the file it produced.

use vstd::prelude::*;
use crate::codegen;
use crate::model::{Canvas, UiItem};
use crate::text;
use crate::text::{chars_of, push_chars, push_str};
use crate::textops;
use crate::textops::{replace_chars, split_once_chars, trim_chars, trim_end_chars, trim_start_chars};

verus! {

/// The first line of every generated file, and an empty line.
pub open spec fn banner() -> Seq<char> {
    "// autogenerated ui file by ittyOS-ui-designer. dont modify manually please <3\n\n"@
}

/// The comment text made of the pretty-printed JSON of the canvas data:
/// without the `"items"` wrapper and its braces, indented four columns less,
/// trimmed.
pub open spec fn data_comment(json: Seq<char>) -> Seq<char> {
    let a = textops::replace_all(json, "  \"items\": [\n"@, seq![]);
    let b = textops::trim_start_pat(a, "{"@);
    let c = textops::replace_all(b, "\n    "@, "\n"@);
    let d = textops::trim_end_pat(c, "]\n}"@);
    textops::trim_ws(d)
}

/// The data comment of a canvas with `items` whose pretty-printed JSON is
/// `json`: empty when there are no items, so that it reads back as no
/// items, else `data_comment(json)`.
pub open spec fn file_comment(items: Seq<UiItem>, json: Seq<char>) -> Seq<char> {
    if items.len() == 0 { seq![] } else { data_comment(json) }
}

/// The `.c` file: the banner, the data comment, then the drawing code.
pub open spec fn c_file_text(comment: Seq<char>, code: Seq<char>) -> Seq<char> {
    banner() + "/*\n"@ + comment + "\n*/\n\n"@ + code
}

/// The `.h` file: the banner and the declarations of the two functions.
pub open spec fn h_file_text(name: Seq<char>) -> Seq<char> {
    banner() + "void "@ + name + "DrawCallback(int i);\n"@ + "void "@ + name + "Draw();\n"@
}

/// The text between the first `/*` of `text` and the first `*/` after it.
pub open spec fn data_block(text: Seq<char>) -> Option<Seq<char>> {
    match textops::split_once(text, "/*"@) {
        Some((_, rest)) => match textops::split_once(rest, "*/"@) {
            Some((inner, _)) => Some(inner),
            None => None,
        },
        None => None,
    }
}

/// The JSON document of the canvas data that a `.c` file holds: its data
/// comment, trimmed, inside `{"items":[` and `]}`.
pub open spec fn items_json(text: Seq<char>) -> Option<Seq<char>> {
    match data_block(text) {
        Some(b) => Some("{\"items\":["@ + textops::trim_ws(b) + "]}"@),
        None => None,
    }
}

/// The comment that the `.c` file holds for the canvas data whose
/// pretty-printed JSON is `json`.
pub fn data_comment_of(json: &str) -> (c: String)
    ensures
        c@ == data_comment(json@),
{
    proof {
        reveal_strlit("  \"items\": [\n");
        reveal_strlit("{");
        reveal_strlit("\n    ");
        reveal_strlit("]\n}");
    }
    let s = chars_of(json);
    let a = replace_chars(&s, &chars_of("  \"items\": [\n"), &Vec::new());
    let b = trim_start_chars(&a, &chars_of("{"));
    let c = replace_chars(&b, &chars_of("\n    "), &chars_of("\n"));
    let d = trim_end_chars(&c, &chars_of("]\n}"));
    let e = trim_chars(&d);
    assert(Seq::<char>::empty() =~= seq![]);
    text::string_of(&e)
}

impl Canvas {
    /// The text of the `.c` file: the data comment made of `json`, the
    /// pretty-printed JSON of the canvas data, then the drawing code.
    pub fn c_file(&self, json: &str, sizes: &Vec<(u32, u32)>) -> (t: String)
        requires
            codegen::gen_ok(self.data.items@, sizes@),
        ensures
            exists|code: Seq<char>| codegen::is_drawing_code(self.name@, self.data.items@, sizes@, code)
                && t@ == c_file_text(file_comment(self.data.items@, json@), code),
    {
        let code = self.generate_code(sizes);
        let mut out: Vec<char> = Vec::new();
        push_str(&mut out, "// autogenerated ui file by ittyOS-ui-designer. dont modify manually please <3\n\n");
        push_str(&mut out, "/*\n");
        if self.data.items.len() > 0 {
            let comment = data_comment_of(json);
            push_str(&mut out, comment.as_str());
        }
        push_str(&mut out, "\n*/\n\n");
        push_str(&mut out, code.as_str());
        assert(out@ =~= c_file_text(file_comment(self.data.items@, json@), code@));
        text::string_of(&out)
    }

    /// The text of the `.h` file.
    pub fn h_file(&self) -> (t: String)
        ensures
            t@ == h_file_text(self.name@),
    {
        let mut out: Vec<char> = Vec::new();
        push_str(&mut out, "// autogenerated ui file by ittyOS-ui-designer. dont modify manually please <3\n\n");
        push_str(&mut out, "void ");
        push_str(&mut out, self.name.as_str());
        push_str(&mut out, "DrawCallback(int i);\n");
        push_str(&mut out, "void ");
        push_str(&mut out, self.name.as_str());
        push_str(&mut out, "Draw();\n");
        assert(out@ =~= h_file_text(self.name@));
        text::string_of(&out)
    }
}

fn data_block_of(text: &str) -> (r: Option<Vec<char>>)
    ensures
        match r {
            Some(b) => data_block(text@) == Some(b@),
            None => data_block(text@) is None,
        },
{
    let s = chars_of(text);
    match split_once_chars(&s, &chars_of("/*")) {
        Some((_, rest)) => match split_once_chars(&rest, &chars_of("*/")) {
            Some((inner, _)) => Some(inner),
            None => None,
        },
        None => None,
    }
}

/// Whether `text` holds a data comment: a `/*` with a `*/` after it.
pub fn has_data_comment(text: &str) -> (b: bool)
    ensures
        b == (items_json(text@) is Some),
{
    data_block_of(text).is_some()
}

/// The JSON document of the canvas data in `text`: its data comment,
/// trimmed, inside `{"items":[` and `]}`.
pub fn canvas_data_json(text: &str) -> (j: String)
    requires
        items_json(text@) is Some,
    ensures
        items_json(text@) == Some(j@),
{
    let inner = data_block_of(text).unwrap();
    let t = trim_chars(&inner);
    let mut out: Vec<char> = Vec::new();
    push_str(&mut out, "{\"items\":[");
    push_chars(&mut out, &t);
    push_str(&mut out, "]}");
    text::string_of(&out)
}

/// The data comment of a text is what lies between its first `/*` and the
/// first `*/` after it, when no `/*` comes before and no `*/` inside.
pub proof fn lemma_data_block(a: Seq<char>, m: Seq<char>, b: Seq<char>)
    requires
        textops::find(a, "/*"@) == -1,
        textops::find(m, "*/"@) == -1,
    ensures
        data_block(a + "/*"@ + m + "*/"@ + b) == Some(m),
{
    let open_p = "/*"@;
    let close_p = "*/"@;
    reveal_strlit("/*");
    reveal_strlit("*/");
    let full = a + open_p + m + close_p + b;
    textops::lemma_find_is_first(a, open_p);
    textops::lemma_find_is_first(m, close_p);
    assert forall|j: int| 0 <= j < a.len() implies !#[trigger] textops::occurs_at(full, open_p, j) by {
        if textops::occurs_at(full, open_p, j) {
            let w = full.skip(j).subrange(0, 2);
            assert(w[0] == open_p[0] && w[1] == open_p[1]);
            assert(full[j] == '/' && full[j + 1] == '*');
            if j + 1 < a.len() {
                assert(a.skip(j).subrange(0, 2) =~= open_p);
                assert(textops::occurs_at(a, open_p, j));
            } else {
                assert(full[j + 1] == '/');
            }
        }
    }
    assert(full.skip(a.len() as int).subrange(0, 2) =~= open_p);
    textops::lemma_find(full, open_p, a.len() as int);
    let rest = full.skip((a.len() + 2) as int);
    assert(rest =~= m + close_p + b);
    assert forall|j: int| 0 <= j < m.len() implies !#[trigger] textops::occurs_at(rest, close_p, j) by {
        if textops::occurs_at(rest, close_p, j) {
            let w = rest.skip(j).subrange(0, 2);
            assert(w[0] == close_p[0] && w[1] == close_p[1]);
            assert(rest[j] == '*' && rest[j + 1] == '/');
            if j + 1 < m.len() {
                assert(m.skip(j).subrange(0, 2) =~= close_p);
                assert(textops::occurs_at(m, close_p, j));
            } else {
                assert(rest[j + 1] == '*');
            }
        }
    }
    assert(rest.skip(m.len() as int).subrange(0, 2) =~= close_p);
    textops::lemma_find(rest, close_p, m.len() as int);
    assert(rest.take(m.len() as int) =~= m);
}

/// Law: only the first data comment of a text is read, and white space
/// around its content does not matter: a text with no `/*` before the
/// comment and no `*/` inside it reads as that comment alone, trimmed.
pub proof fn lemma_reads_first_comment(a: Seq<char>, m: Seq<char>, b: Seq<char>)
    requires
        textops::find(a, "/*"@) == -1,
        textops::find(m, "*/"@) == -1,
    ensures
        items_json(a + "/*"@ + m + "*/"@ + b) == Some("{\"items\":["@ + textops::trim_ws(m) + "]}"@),
        items_json(a + "/*"@ + m + "*/"@ + b) == items_json("/*"@ + textops::trim_ws(m) + "*/"@),
{
    lemma_data_block(a, m, b);
    textops::lemma_trim_ws_part(m);
    let (k, l) = choose|k: int, l: int| 0 <= k <= l <= m.len() && textops::trim_ws(m) == m.subrange(k, l);
    textops::lemma_find_subrange(m, "*/"@, k, l);
    reveal_strlit("/*");
    let e = Seq::<char>::empty();
    assert forall|j: int| 0 <= j <= e.len() implies !#[trigger] textops::occurs_at(e, "/*"@, j) by {}
    textops::lemma_find(e, "/*"@, 0);
    lemma_data_block(e, textops::trim_ws(m), e);
    assert(e + "/*"@ + textops::trim_ws(m) + "*/"@ + e =~= "/*"@ + textops::trim_ws(m) + "*/"@);
    textops::lemma_trim_ws_idempotent(m);
}

/// Law: reading back a written `.c` file gives the JSON document of the
/// data comment written into it, inside `{"items":[` and `]}`, whatever
/// drawing code follows, as long as the comment holds no `*/`; for a canvas
/// without items that document is `{"items":[]}`.
pub proof fn lemma_c_file_round_trip(items: Seq<UiItem>, json: Seq<char>, code: Seq<char>)
    requires
        textops::find(file_comment(items, json), "*/"@) == -1,
    ensures
        items_json(c_file_text(file_comment(items, json), code)) == Some("{\"items\":["@ + file_comment(items, json) + "]}"@),
        items.len() == 0 ==> items_json(c_file_text(file_comment(items, json), code)) == Some("{\"items\":[]}"@),
{
    let t = file_comment(items, json);
    let h = banner();
    let open_p = "/*"@;
    let close_p = "*/"@;
    reveal_strlit("// autogenerated ui file by ittyOS-ui-designer. dont modify manually please <3\n\n");
    reveal_strlit("/*\n");
    reveal_strlit("\n*/\n\n");
    reveal_strlit("/*");
    reveal_strlit("*/");
    reveal_strlit("{\"items\":[");
    reveal_strlit("]}");
    reveal_strlit("{\"items\":[]}");
    // the banner holds no `/*`
    assert(h.len() == 80);
    assert(forall|i: int| 1 <= i < h.len() ==> h[i] != '*');
    assert forall|j: int| 0 <= j <= h.len() implies !#[trigger] textops::occurs_at(h, open_p, j) by {
        if textops::occurs_at(h, open_p, j) {
            let w = h.skip(j).subrange(0, 2);
            assert(w[1] == open_p[1]);
            assert(h[j + 1] == '*');
        }
    }
    textops::lemma_find(h, open_p, h.len() as int);
    // the comment framed by line breaks holds no `*/`
    let m = seq!['\n'] + t + seq!['\n'];
    textops::lemma_find_is_first(t, close_p);
    assert forall|j: int| 0 <= j <= m.len() implies !#[trigger] textops::occurs_at(m, close_p, j) by {
        if textops::occurs_at(m, close_p, j) {
            let w = m.skip(j).subrange(0, 2);
            assert(w[0] == close_p[0] && w[1] == close_p[1]);
            assert(m[j] == '*' && m[j + 1] == '/');
            if j == 0 {
                assert(m[0] == '\n');
            } else if j < t.len() {
                assert(m[j] == t[j - 1] && m[j + 1] == t[j]);
                assert(t.skip(j - 1).subrange(0, 2) =~= close_p);
                assert(textops::occurs_at(t, close_p, j - 1));
            } else if j == t.len() {
                assert(m[j + 1] == '\n');
            } else {
                assert(m[j] == '\n');
            }
        }
    }
    textops::lemma_find(m, close_p, m.len() as int);
    let b = "\n\n"@ + code;
    reveal_strlit("\n\n");
    assert(c_file_text(t, code) =~= h + open_p + m + close_p + b);
    lemma_data_block(h, m, b);
    if items.len() > 0 {
        textops::lemma_trim_ws_ends(
            textops::trim_end_pat(
                textops::replace_all(
                    textops::trim_start_pat(textops::replace_all(json, "  \"items\": [\n"@, seq![]), "{"@),
                    "\n    "@,
                    "\n"@,
                ),
                "]\n}"@,
            ),
        );
    }
    textops::lemma_trim_framed(t);
    if items.len() == 0 {
        assert("{\"items\":["@ + t + "]}"@ =~= "{\"items\":[]}"@);
    }
}

} // verus!
