//! Building a document from the raw input, and rendering it as XML.
use vstd::prelude::*;
use vstd::string::*;
use crate::ident::{
    char_is_space, clean_identifier, is_blank, is_ident_char, is_space, lemma_sanitized_chars,
    sanitized,
};

verus! {

/// What the user typed: a tag and rows of key and value, in order.
#[derive(Clone, Debug)]
pub struct InputState {
    pub tag: String,
    pub attributes: Vec<(String, String)>,
}

/// A validated element: a tag and its attributes, in order. An absent
/// value marks a flag attribute.
#[derive(Clone, Debug)]
pub struct ParsedData {
    pub tag: String,
    pub attributes: Vec<(String, Option<String>)>,
}

/// Why an input could not be built into a document.
#[derive(Clone, Copy, Debug, PartialEq, Eq, Structural)]
pub enum ParseError {
    /// The tag is empty or whitespace only.
    EmptyTag,
    /// The tag holds no identifier character.
    InvalidTagCharacters,
    /// A key that is not blank holds no identifier character.
    InvalidAttributeKey,
}

/// A row of key and value text.
pub type RowModel = (Seq<char>, Seq<char>);

/// An attribute: a key, and a value unless it is a flag.
pub type AttrModel = (Seq<char>, Option<Seq<char>>);

pub open spec fn rows_model(rows: Seq<(String, String)>) -> Seq<RowModel> {
    rows.map_values(|r: (String, String)| (r.0@, r.1@))
}

pub open spec fn option_model(o: Option<String>) -> Option<Seq<char>> {
    match o {
        Some(s) => Some(s@),
        None => None,
    }
}

pub open spec fn attrs_model(attrs: Seq<(String, Option<String>)>) -> Seq<AttrModel> {
    attrs.map_values(|a: (String, Option<String>)| (a.0@, option_model(a.1)))
}

impl View for InputState {
    type V = (Seq<char>, Seq<RowModel>);

    open spec fn view(&self) -> Self::V {
        (self.tag@, rows_model(self.attributes@))
    }
}

impl View for ParsedData {
    type V = (Seq<char>, Seq<AttrModel>);

    open spec fn view(&self) -> Self::V {
        (self.tag@, attrs_model(self.attributes@))
    }
}

/// A non-empty text of identifier characters.
pub open spec fn is_identifier(s: Seq<char>) -> bool {
    s.len() > 0 && forall|i: int| 0 <= i < s.len() ==> is_ident_char(#[trigger] s[i])
}

impl ParsedData {
    /// The tag and every key are identifiers.
    pub open spec fn wf(&self) -> bool {
        &&& is_identifier(self@.0)
        &&& forall|i: int| 0 <= i < self@.1.len() ==> is_identifier(#[trigger] self@.1[i].0)
    }
}

/// `s` without its leading and trailing whitespace.
pub open spec fn trimmed(s: Seq<char>) -> Seq<char>
    decreases s.len(),
{
    if s.len() == 0 {
        s
    } else if is_space(s[0]) {
        trimmed(s.drop_first())
    } else if is_space(s.last()) {
        trimmed(s.drop_last())
    } else {
        s
    }
}

/// A trimmed value, or none where nothing is left (a flag attribute).
pub open spec fn value_of(v: Seq<char>) -> Option<Seq<char>> {
    if trimmed(v).len() == 0 {
        None
    } else {
        Some(trimmed(v))
    }
}

/// A row whose key is not blank yet keeps no identifier character.
pub open spec fn is_bad_row(row: RowModel) -> bool {
    !is_blank(row.0) && sanitized(row.0).len() == 0
}

/// The attributes of the rows, in order: rows with a blank key are
/// dropped, and a bad row fails the whole list.
pub open spec fn build_attributes(rows: Seq<RowModel>) -> Result<Seq<AttrModel>, ParseError>
    decreases rows.len(),
{
    if rows.len() == 0 {
        Ok(Seq::empty())
    } else {
        match build_attributes(rows.drop_last()) {
            Err(e) => Err(e),
            Ok(attrs) => {
                let row = rows.last();
                if sanitized(row.0).len() > 0 {
                    Ok(attrs.push((sanitized(row.0), value_of(row.1))))
                } else if is_blank(row.0) {
                    Ok(attrs)
                } else {
                    Err(ParseError::InvalidAttributeKey)
                }
            },
        }
    }
}

/// The document that an input builds into, or why it does not.
pub open spec fn build(input: (Seq<char>, Seq<RowModel>)) -> Result<
    (Seq<char>, Seq<AttrModel>),
    ParseError,
> {
    if is_blank(input.0) {
        Err(ParseError::EmptyTag)
    } else if sanitized(input.0).len() == 0 {
        Err(ParseError::InvalidTagCharacters)
    } else {
        match build_attributes(input.1) {
            Err(e) => Err(e),
            Ok(attrs) => Ok((sanitized(input.0), attrs)),
        }
    }
}

/// Whether `s` is whitespace only.
fn text_is_blank(s: &str) -> (r: bool)
    ensures
        r == is_blank(s@),
{
    let n = s.unicode_len();
    let mut i: usize = 0;
    while i < n
        invariant
            n == s@.len(),
            i <= n,
            forall|j: int| 0 <= j < i ==> is_space(#[trigger] s@[j]),
        decreases n - i,
    {
        if !char_is_space(s.get_char(i)) {
            return false;
        }
        i = i + 1;
    }
    true
}

proof fn lemma_trimmed_front(s: Seq<char>, lo: int)
    requires
        0 <= lo < s.len(),
        is_space(s[lo]),
    ensures
        trimmed(s.subrange(lo, s.len() as int)) == trimmed(s.subrange(lo + 1, s.len() as int)),
{
    assert(s.subrange(lo, s.len() as int).drop_first() =~= s.subrange(lo + 1, s.len() as int));
}

proof fn lemma_trimmed_back(s: Seq<char>, lo: int, hi: int)
    requires
        0 <= lo < hi <= s.len(),
        !is_space(s[lo]),
        is_space(s[hi - 1]),
    ensures
        trimmed(s.subrange(lo, hi)) == trimmed(s.subrange(lo, hi - 1)),
{
    assert(s.subrange(lo, hi).drop_last() =~= s.subrange(lo, hi - 1));
}

/// `s` without its leading and trailing whitespace.
fn trim_text(s: &str) -> (r: String)
    ensures
        r@ == trimmed(s@),
{
    let n = s.unicode_len();
    let mut lo: usize = 0;
    assert(s@.subrange(0, n as int) =~= s@);
    while lo < n && char_is_space(s.get_char(lo))
        invariant
            n == s@.len(),
            lo <= n,
            trimmed(s@) == trimmed(s@.subrange(lo as int, n as int)),
        decreases n - lo,
    {
        proof {
            lemma_trimmed_front(s@, lo as int);
        }
        lo = lo + 1;
    }
    let mut hi: usize = n;
    while hi > lo && char_is_space(s.get_char(hi - 1))
        invariant
            n == s@.len(),
            lo <= hi <= n,
            lo < n ==> !is_space(s@[lo as int]),
            trimmed(s@) == trimmed(s@.subrange(lo as int, hi as int)),
        decreases hi - lo,
    {
        proof {
            lemma_trimmed_back(s@, lo as int, hi as int);
        }
        hi = hi - 1;
    }
    let mut out = String::new();
    let mut i: usize = lo;
    while i < hi
        invariant
            n == s@.len(),
            lo <= i <= hi <= n,
            out@ == s@.subrange(lo as int, i as int),
        decreases hi - i,
    {
        out.push(s.get_char(i));
        assert(s@.subrange(lo as int, i + 1) =~= s@.subrange(lo as int, i as int).push(s@[i as int]));
        i = i + 1;
    }
    proof {
        let t = s@.subrange(lo as int, hi as int);
        if lo < hi {
            assert(!is_space(t[0]));
            assert(!is_space(t.last()));
        }
    }
    out
}

proof fn lemma_error_stays(rows: Seq<RowModel>, i: int)
    requires
        0 <= i <= rows.len(),
        build_attributes(rows.take(i)) == Err::<Seq<AttrModel>, ParseError>(
            ParseError::InvalidAttributeKey,
        ),
    ensures
        build_attributes(rows) == Err::<Seq<AttrModel>, ParseError>(
            ParseError::InvalidAttributeKey,
        ),
    decreases rows.len(),
{
    if i == rows.len() {
        assert(rows.take(i) =~= rows);
    } else {
        assert(rows.drop_last().take(i) =~= rows.take(i));
        lemma_error_stays(rows.drop_last(), i);
    }
}

proof fn lemma_only_key_error(rows: Seq<RowModel>)
    ensures
        build_attributes(rows) is Err ==> build_attributes(rows) == Err::<
            Seq<AttrModel>,
            ParseError,
        >(ParseError::InvalidAttributeKey),
    decreases rows.len(),
{
    if rows.len() > 0 {
        lemma_only_key_error(rows.drop_last());
    }
}

proof fn lemma_bad_row_fails(rows: Seq<RowModel>, k: int)
    requires
        0 <= k < rows.len(),
        is_bad_row(rows[k]),
    ensures
        build_attributes(rows) == Err::<Seq<AttrModel>, ParseError>(
            ParseError::InvalidAttributeKey,
        ),
{
    let t = rows.take(k + 1);
    assert(t.drop_last() =~= rows.take(k));
    assert(t.last() == rows[k]);
    lemma_only_key_error(rows.take(k));
    lemma_error_stays(rows, k + 1);
}

/// A blank tag always fails to build, whatever the rows.
pub proof fn lemma_blank_tag_fails(input: (Seq<char>, Seq<RowModel>))
    requires
        is_blank(input.0),
    ensures
        build(input) == Err::<(Seq<char>, Seq<AttrModel>), ParseError>(ParseError::EmptyTag),
{
}

/// A key that is not blank but keeps no identifier character fails the
/// build, whatever the other rows hold.
pub proof fn lemma_bad_key_fails(input: (Seq<char>, Seq<RowModel>), k: int)
    requires
        !is_blank(input.0),
        sanitized(input.0).len() > 0,
        0 <= k < input.1.len(),
        is_bad_row(input.1[k]),
    ensures
        build(input) == Err::<(Seq<char>, Seq<AttrModel>), ParseError>(
            ParseError::InvalidAttributeKey,
        ),
{
    lemma_bad_row_fails(input.1, k);
}

/// Validates the input and builds the document: the tag and the keys are
/// sanitized, rows with a blank key are dropped, values are trimmed, and a
/// value that trims to nothing makes a flag attribute.
pub fn build_parsed_data(input_state: &InputState) -> (r: Result<ParsedData, ParseError>)
    ensures
        match build(input_state@) {
            Ok(doc) => r is Ok && r->Ok_0@ == doc && r->Ok_0.wf(),
            Err(e) => r == Err::<ParsedData, ParseError>(e),
        },
{
    if text_is_blank(input_state.tag.as_str()) {
        return Err(ParseError::EmptyTag);
    }
    let tag = clean_identifier(input_state.tag.as_str());
    if tag.unicode_len() == 0 {
        return Err(ParseError::InvalidTagCharacters);
    }
    proof {
        lemma_sanitized_chars(input_state.tag@);
    }
    let ghost rows = input_state@.1;
    let mut attributes: Vec<(String, Option<String>)> = Vec::new();
    let n = input_state.attributes.len();
    let mut i: usize = 0;
    assert(rows.take(0) =~= Seq::<RowModel>::empty());
    assert(attrs_model(attributes@) =~= Seq::<AttrModel>::empty());
    while i < n
        invariant
            n == input_state.attributes@.len(),
            rows == input_state@.1,
            !is_blank(input_state@.0),
            tag@ == sanitized(input_state@.0),
            is_identifier(tag@),
            i <= n,
            build_attributes(rows.take(i as int)) == Ok::<Seq<AttrModel>, ParseError>(
                attrs_model(attributes@),
            ),
            forall|j: int|
                0 <= j < attributes@.len() ==> is_identifier(#[trigger] attributes@[j].0@),
        decreases n - i,
    {
        let row = &input_state.attributes[i];
        let key = clean_identifier(row.0.as_str());
        proof {
            let t = rows.take(i + 1);
            assert(t.drop_last() =~= rows.take(i as int));
            assert(t.last() == (row.0@, row.1@));
        }
        if key.unicode_len() > 0 {
            let value = trim_text(row.1.as_str());
            let value = if value.unicode_len() == 0 {
                None
            } else {
                Some(value)
            };
            proof {
                lemma_sanitized_chars(row.0@);
            }
            let ghost prev = attributes@;
            attributes.push((key, value));
            assert(attrs_model(attributes@) =~= attrs_model(prev).push(
                (sanitized(row.0@), value_of(row.1@)),
            ));
        } else if !text_is_blank(row.0.as_str()) {
            proof {
                assert(is_bad_row(rows[i as int]));
                lemma_bad_row_fails(rows, i as int);
            }
            return Err(ParseError::InvalidAttributeKey);
        }
        i = i + 1;
    }
    assert(rows.take(n as int) =~= rows);
    let doc = ParsedData { tag, attributes };
    Ok(doc)
}

/// `v` with each `"` written as `&quot;`; nothing else is escaped.
pub open spec fn escape_quotes(v: Seq<char>) -> Seq<char>
    decreases v.len(),
{
    if v.len() == 0 {
        Seq::empty()
    } else if v.last() == '"' {
        escape_quotes(v.drop_last()) + seq!['&', 'q', 'u', 'o', 't', ';']
    } else {
        escape_quotes(v.drop_last()).push(v.last())
    }
}

/// ` key="value"`, or ` key` for a flag.
pub open spec fn attribute_text(a: AttrModel) -> Seq<char> {
    match a.1 {
        Some(v) => seq![' '] + a.0 + seq!['=', '"'] + escape_quotes(v) + seq!['"'],
        None => seq![' '] + a.0,
    }
}

/// The attributes' texts, one after the other.
pub open spec fn attributes_text(attrs: Seq<AttrModel>) -> Seq<char>
    decreases attrs.len(),
{
    if attrs.len() == 0 {
        Seq::empty()
    } else {
        attributes_text(attrs.drop_last()) + attribute_text(attrs.last())
    }
}

/// `<tag attrs>`, a blank line, then `</tag>`.
pub open spec fn xml_text(doc: (Seq<char>, Seq<AttrModel>)) -> Seq<char> {
    seq!['<'] + doc.0 + attributes_text(doc.1) + seq!['>', '\n', '\n', '<', '/'] + doc.0 + seq![
        '>',
    ]
}

/// Appends the characters of `s`.
fn push_text(out: &mut String, s: &str)
    ensures
        final(out)@ == old(out)@ + s@,
{
    let n = s.unicode_len();
    let mut i: usize = 0;
    while i < n
        invariant
            n == s@.len(),
            i <= n,
            out@ == old(out)@ + s@.take(i as int),
        decreases n - i,
    {
        out.push(s.get_char(i));
        assert(s@.take(i + 1) =~= s@.take(i as int).push(s@[i as int]));
        i = i + 1;
    }
    assert(s@.take(n as int) =~= s@);
}

/// Appends `v` with its quotes escaped.
fn push_escaped(out: &mut String, v: &str)
    ensures
        final(out)@ == old(out)@ + escape_quotes(v@),
{
    let n = v.unicode_len();
    let mut i: usize = 0;
    assert(escape_quotes(v@.take(0)) =~= Seq::<char>::empty());
    while i < n
        invariant
            n == v@.len(),
            i <= n,
            out@ == old(out)@ + escape_quotes(v@.take(i as int)),
        decreases n - i,
    {
        let c = v.get_char(i);
        let ghost t = v@.take(i + 1);
        assert(t.drop_last() =~= v@.take(i as int));
        if c == '"' {
            out.push('&');
            out.push('q');
            out.push('u');
            out.push('o');
            out.push('t');
            out.push(';');
        } else {
            out.push(c);
        }
        assert(out@ =~= old(out)@ + escape_quotes(t));
        i = i + 1;
    }
    assert(v@.take(n as int) =~= v@);
}

/// Renders the document: `<tag key="value" flag>`, a blank line, and the
/// closing tag. Attributes keep their order; quotes in values become
/// `&quot;`.
pub fn generate_xml(data: &ParsedData) -> (r: String)
    ensures
        r@ == xml_text(data@),
{
    let mut out = String::new();
    out.push('<');
    push_text(&mut out, data.tag.as_str());
    let ghost head = out@;
    let n = data.attributes.len();
    let mut i: usize = 0;
    assert(attributes_text(data@.1.take(0)) =~= Seq::<char>::empty());
    while i < n
        invariant
            n == data.attributes@.len(),
            n == data@.1.len(),
            i <= n,
            out@ == head + attributes_text(data@.1.take(i as int)),
        decreases n - i,
    {
        let a = &data.attributes[i];
        let ghost before = out@;
        out.push(' ');
        push_text(&mut out, a.0.as_str());
        match &a.1 {
            Some(v) => {
                out.push('=');
                out.push('"');
                push_escaped(&mut out, v.as_str());
                out.push('"');
            },
            None => {},
        }
        proof {
            let t = data@.1.take(i + 1);
            assert(t.drop_last() =~= data@.1.take(i as int));
            assert(t.last() == data@.1[i as int]);
            assert(out@ =~= before + attribute_text(data@.1[i as int]));
            assert(out@ =~= head + attributes_text(t));
        }
        i = i + 1;
    }
    assert(data@.1.take(n as int) =~= data@.1);
    out.push('>');
    out.push('\n');
    out.push('\n');
    out.push('<');
    out.push('/');
    push_text(&mut out, data.tag.as_str());
    out.push('>');
    assert(out@ =~= xml_text(data@));
    out
}

} // verus!
