use vstd::prelude::*;

use crate::text::{split_on, split_spec, strings_view, trim, trim_spec};

verus! {

/// A named sub-field of a news item's detail text.
pub struct Field {
    pub name: String,
    pub value: String,
}

impl View for Field {
    type V = (Seq<char>, Seq<char>);

    open spec fn view(&self) -> (Seq<char>, Seq<char>) {
        (self.name@, self.value@)
    }
}

/// What a vector of fields holds, as (name, value) pairs.
pub open spec fn fields_view(v: Seq<Field>) -> Seq<(Seq<char>, Seq<char>)> {
    v.map_values(|f: Field| f@)
}

/// A trimmed line of the form `[name]`, with at least one character of name.
pub open spec fn is_header(t: Seq<char>) -> bool {
    t.len() >= 3 && t[0] == '[' && t.last() == ']'
}

/// The name between the brackets of a header line.
pub open spec fn header_name(t: Seq<char>) -> Seq<char> {
    t.subrange(1, t.len() - 1)
}

/// The state of the line scan: the field that is open, if any, the value lines
/// gathered for it (joined by newlines), and the fields finished so far.
pub struct FieldScan {
    pub open: Option<Seq<char>>,
    pub value: Seq<char>,
    pub fields: Seq<(Seq<char>, Seq<char>)>,
}

/// The finished fields once the open one is closed: it is kept only when it has a value.
pub open spec fn flushed(st: FieldScan) -> Seq<(Seq<char>, Seq<char>)> {
    match st.open {
        Some(n) => if st.value.len() > 0 {
            st.fields.push((n, st.value))
        } else {
            st.fields
        },
        None => st.fields,
    }
}

/// One line of the scan.
pub open spec fn scan_step(st: FieldScan, line: Seq<char>) -> FieldScan {
    let t = trim_spec(line);
    if is_header(t) {
        FieldScan { open: Some(header_name(t)), value: Seq::empty(), fields: flushed(st) }
    } else if st.open is Some {
        if t.len() == 0 {
            FieldScan { open: None, value: Seq::empty(), fields: flushed(st) }
        } else if st.value.len() == 0 {
            FieldScan { value: t, ..st }
        } else {
            FieldScan { value: st.value + seq!['\n'] + t, ..st }
        }
    } else {
        st
    }
}

/// The scan before any line.
pub open spec fn scan_start() -> FieldScan {
    FieldScan { open: None, value: Seq::empty(), fields: Seq::empty() }
}

/// The scan after the given lines, in order.
pub open spec fn scan_lines(lines: Seq<Seq<char>>) -> FieldScan
    decreases lines.len(),
{
    if lines.len() == 0 {
        scan_start()
    } else {
        scan_step(scan_lines(lines.drop_last()), lines.last())
    }
}

/// The description of a detail text: its first line, trimmed.
pub open spec fn description_of(text: Seq<char>) -> Seq<char> {
    trim_spec(split_spec(text, '\n')[0])
}

/// The fields of a detail text: the lines after the first, scanned, with the last
/// field closed at the end.
pub open spec fn fields_of(text: Seq<char>) -> Seq<(Seq<char>, Seq<char>)> {
    flushed(scan_lines(split_spec(text, '\n').drop_first()))
}

/// A field whose header is followed directly by another header or by a blank line
/// has no value, and closing it adds no field.
pub proof fn lemma_empty_field_dropped(st: FieldScan, line: Seq<char>)
    requires
        st.open is Some,
        st.value.len() == 0,
        is_header(trim_spec(line)) || trim_spec(line).len() == 0,
    ensures
        scan_step(st, line).fields == st.fields,
{
}

/// An empty field left open at the end of the text adds no field either.
pub proof fn lemma_empty_field_dropped_at_end(st: FieldScan)
    requires
        st.value.len() == 0,
    ensures
        flushed(st) == st.fields,
{
}

fn is_header_exec(t: &String) -> (r: bool)
    ensures
        r == is_header(t@),
{
    let n = t.as_str().unicode_len();
    n >= 3 && t.as_str().get_char(0) == '[' && t.as_str().get_char(n - 1) == ']'
}

fn flush(open: &Option<String>, value: &String, fields: &mut Vec<Field>)
    ensures
        fields_view(final(fields)@) == flushed(
            FieldScan {
                open: match open {
                    Some(n) => Some(n@),
                    None => None,
                },
                value: value@,
                fields: fields_view(old(fields)@),
            },
        ),
{
    if let Some(n) = open {
        if value.as_str().unicode_len() > 0 {
            let f = Field { name: n.clone(), value: value.clone() };
            proof {
                assert(fields_view(fields@.push(f)) =~= fields_view(fields@).push(f@));
            }
            fields.push(f);
        }
    }
}

/// Splits a detail text into its description (the first line, trimmed) and the
/// named fields that follow it.
///
/// A line `[name]` opens a field; the non-blank lines that follow are its value,
/// joined by newlines; a blank line or the next header closes it. A field without
/// any value line is dropped. Fields keep the order of the text.
pub fn parse_fields(text: &str) -> (r: (Option<String>, Vec<Field>))
    ensures
        r.0 is Some,
        r.0->Some_0@ == description_of(text@),
        fields_view(r.1@) == fields_of(text@),
{
    let lines = split_on(text, '\n');
    let ghost lv = strings_view(lines@);
    assert(lv.len() >= 1);
    let desc = trim(lines[0].as_str());
    let ghost rest = lv.drop_first();
    let mut open: Option<String> = None;
    let mut value = String::new();
    let mut fields: Vec<Field> = Vec::new();
    let mut i: usize = 1;
    proof {
        reveal_strlit("\n");
        assert(rest.subrange(0, 0) =~= Seq::<Seq<char>>::empty());
        assert(fields_view(fields@) =~= Seq::<(Seq<char>, Seq<char>)>::empty());
    }
    while i < lines.len()
        invariant
            1 <= i <= lines.len(),
            lv == strings_view(lines@),
            rest == lv.drop_first(),
            "\n"@ == seq!['\n'],
            ({
                let st = scan_lines(rest.subrange(0, i - 1));
                &&& st.open == match open {
                    Some(n) => Some(n@),
                    None => None,
                }
                &&& st.value == value@
                &&& st.fields == fields_view(fields@)
            }),
        decreases lines.len() - i,
    {
        proof {
            assert(rest.subrange(0, i as int).drop_last() =~= rest.subrange(0, i - 1));
            assert(rest.subrange(0, i as int).last() == lines@[i as int]@);
        }
        let t = trim(lines[i].as_str());
        if is_header_exec(&t) {
            flush(&open, &value, &mut fields);
            let n = t.as_str().unicode_len();
            let name = t.as_str().substring_char(1, n - 1).to_owned();
            open = Some(name);
            value = String::new();
        } else if open.is_some() {
            if t.as_str().unicode_len() == 0 {
                flush(&open, &value, &mut fields);
                open = None;
                value = String::new();
            } else if value.as_str().unicode_len() == 0 {
                value = t;
            } else {
                value.append("\n");
                value.append(t.as_str());
            }
        }
        i += 1;
    }
    proof {
        assert(rest.subrange(0, i - 1) =~= rest);
    }
    flush(&open, &value, &mut fields);
    (Some(desc), fields)
}

/// A lower-case hexadecimal digit.
pub open spec fn hex_digit(n: int) -> char {
    seq!['0', '1', '2', '3', '4', '5', '6', '7', '8', '9', 'a', 'b', 'c', 'd', 'e', 'f'][n]
}

/// How `serde_json` writes one character inside a string literal: `"` and `\` get a
/// backslash, five control characters their short escapes, the other control
/// characters below U+0020 `\u00XX`, and every other character stays as it is.
pub open spec fn json_escape(c: char) -> Seq<char> {
    let u = c as u32;
    if c == '"' {
        seq!['\\', '"']
    } else if c == '\\' {
        seq!['\\', '\\']
    } else if u == 0x08 {
        seq!['\\', 'b']
    } else if u == 0x09 {
        seq!['\\', 't']
    } else if u == 0x0a {
        seq!['\\', 'n']
    } else if u == 0x0c {
        seq!['\\', 'f']
    } else if u == 0x0d {
        seq!['\\', 'r']
    } else if u < 0x20 {
        seq!['\\', 'u', '0', '0', hex_digit(u as int / 16), hex_digit(u as int % 16)]
    } else {
        seq![c]
    }
}

/// The characters of a string, each escaped as `json_escape` says.
pub open spec fn json_escaped(s: Seq<char>) -> Seq<char>
    decreases s.len(),
{
    if s.len() == 0 {
        Seq::empty()
    } else {
        json_escaped(s.drop_last()) + json_escape(s.last())
    }
}

/// What `serde_json` writes for a string: the escaped characters between quotes.
pub open spec fn json_quoted(s: Seq<char>) -> Seq<char> {
    seq!['"'] + json_escaped(s) + seq!['"']
}

/// Relies on `serde_json::to_string` on a `str`: the JSON string literal of `s`. A
/// `str` is written by `serialize_str` into a `Vec`, which cannot fail.
#[verifier::external_body]
fn quote_json(s: &str) -> (r: Option<String>)
    ensures
        r is Some,
        r->Some_0@ == json_quoted(s@),
{
    serde_json::to_string(s).ok()
}

/// The JSON object of one field: `{"name":...,"value":...}`.
pub open spec fn field_json(f: (Seq<char>, Seq<char>)) -> Seq<char> {
    "{\"name\":"@ + json_quoted(f.0) + ",\"value\":"@ + json_quoted(f.1) + "}"@
}

/// The JSON objects of the fields, separated by commas.
pub open spec fn fields_json_items(fs: Seq<(Seq<char>, Seq<char>)>) -> Seq<char>
    decreases fs.len(),
{
    if fs.len() == 0 {
        Seq::empty()
    } else if fs.len() == 1 {
        field_json(fs[0])
    } else {
        fields_json_items(fs.drop_last()) + ","@ + field_json(fs.last())
    }
}

/// The JSON array of the fields, in order, as they are stored with a record.
pub open spec fn fields_json(fs: Seq<(Seq<char>, Seq<char>)>) -> Seq<char> {
    "["@ + fields_json_items(fs) + "]"@
}

/// Encodes fields as the JSON array `[{"name":...,"value":...},...]`.
pub fn encode_fields(fields: &Vec<Field>) -> (r: Option<String>)
    ensures
        r matches Some(j) && j@ == fields_json(fields_view(fields@)),
{
    let ghost fv = fields_view(fields@);
    let mut body = String::new();
    let mut i: usize = 0;
    while i < fields.len()
        invariant
            i <= fields.len(),
            fv == fields_view(fields@),
            body@ == fields_json_items(fv.subrange(0, i as int)),
        decreases fields.len() - i,
    {
        let name = quote_json(fields[i].name.as_str());
        let value = quote_json(fields[i].value.as_str());
        match (name, value) {
            (Some(n), Some(v)) => {
                proof {
                    assert(fv.subrange(0, i + 1).drop_last() =~= fv.subrange(0, i as int));
                    assert(fv.subrange(0, i + 1).last() == fields@[i as int]@);
                    if i == 0 {
                        assert(fv.subrange(0, 0) =~= Seq::<(Seq<char>, Seq<char>)>::empty());
                    }
                }
                let ghost before = body@;
                if i > 0 {
                    body.append(",");
                }
                body.append("{\"name\":");
                body.append(n.as_str());
                body.append(",\"value\":");
                body.append(v.as_str());
                body.append("}");
                proof {
                    if i == 0 {
                        assert(body@ =~= field_json(fv[0]));
                    } else {
                        assert(body@ =~= before + ","@ + field_json(fv[i as int]));
                    }
                }
            },
            _ => {
                return None;
            },
        }
        i += 1;
    }
    let mut out = String::new();
    out.append("[");
    out.append(body.as_str());
    out.append("]");
    proof {
        assert(fv.subrange(0, i as int) =~= fv);
    }
    Some(out)
}

} // verus!
