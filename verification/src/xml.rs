//! XML replies of WebDAV servers, as the tokens that they are made of.

use crate::text::{chars_of, same_bytes, text_of, trim, trimmed};
use quick_xml::events::Event;
use vstd::prelude::*;
use vstd::slice::slice_subrange;
use vstd::utf8::{decode_utf8, decode_utf8_encode_utf8, encode_utf8, valid_utf8};

verus! {

// ── The model ──────────────────────────────────────────────────────

/// An attribute's name and value; `None` where it cannot be read.
pub type AttributeModel = Option<(Seq<u8>, Seq<u8>)>;

pub enum TokenModel {
    Start(Seq<u8>),
    End(Seq<u8>),
    Empty(Seq<u8>),
    Text(Option<Seq<char>>),
    CData(Seq<u8>),
    Other,
    Bad,
}

/// A token of an XML document.
#[derive(Debug)]
pub enum XmlToken {
    /// A start tag: its name and its attributes as they are written.
    Start(Vec<u8>),
    /// An end tag: its name.
    End(Vec<u8>),
    /// A tag without content: its name and its attributes as they are written.
    Empty(Vec<u8>),
    /// Text with its entities resolved; `None` where that fails.
    Text(Option<String>),
    /// The content of a CDATA section.
    CData(Vec<u8>),
    /// A comment, a declaration or an instruction.
    Other,
    /// Something that is no XML.
    Bad,
}

pub open spec fn attributes_view(v: Seq<Option<(Vec<u8>, Vec<u8>)>>) -> Seq<AttributeModel> {
    v.map_values(
        |a: Option<(Vec<u8>, Vec<u8>)>|
            match a {
                Some((key, value)) => Some((key@, value@)),
                None => None,
            },
    )
}

impl View for XmlToken {
    type V = TokenModel;

    open spec fn view(&self) -> TokenModel {
        match self {
            XmlToken::Start(tag) => TokenModel::Start(tag@),
            XmlToken::End(name) => TokenModel::End(name@),
            XmlToken::Empty(tag) => TokenModel::Empty(tag@),
            XmlToken::Text(text) => TokenModel::Text(
                match text {
                    Some(text) => Some(text@),
                    None => None,
                },
            ),
            XmlToken::CData(data) => TokenModel::CData(data@),
            XmlToken::Other => TokenModel::Other,
            XmlToken::Bad => TokenModel::Bad,
        }
    }
}

pub open spec fn tokens_view(v: Seq<XmlToken>) -> Seq<TokenModel> {
    v.map_values(|t: XmlToken| t@)
}

// ── Reading tokens ─────────────────────────────────────────────────

/// `quick_xml::Reader`, which hands out the tokens of a document one after the other.
#[verifier::external_type_specification]
#[verifier::external_body]
#[verifier::reject_recursive_types(R)]
pub struct ExReader<R>(quick_xml::Reader<R>);

/// The tokens of a document, up to its end.
pub uninterp spec fn xml_tokens(text: Seq<char>) -> Seq<TokenModel>;

/// The tokens that a reader has still to hand out.
pub uninterp spec fn unread_tokens(reader: quick_xml::Reader<&[u8]>) -> Seq<TokenModel>;

/// `quick_xml::Reader::from_str`: a reader that stands before the first token of a
/// document. Which tokens those are is a function of the text.
#[verifier::external_body]
fn open_document(text: &str) -> (r: quick_xml::Reader<&[u8]>)
    ensures
        unread_tokens(r) == xml_tokens(text@),
{
    quick_xml::Reader::from_str(text)
}

/// `quick_xml::Reader::read_event_into`: hands out the next token, and `None` at the end
/// of the document. An error is a token too: after some of them the reader goes on.
#[verifier::external_body]
fn next_token(reader: &mut quick_xml::Reader<&[u8]>) -> (r: Option<XmlToken>)
    ensures
        match r {
            Some(token) => unread_tokens(*old(reader)).len() > 0 && token@ == unread_tokens(
                *old(reader),
            )[0] && unread_tokens(*final(reader)) == unread_tokens(*old(reader)).skip(1),
            None => unread_tokens(*old(reader)).len() == 0,
        },
{
    Some(match reader.read_event_into(&mut Vec::new()) {
        Ok(Event::Start(e)) => XmlToken::Start(e.to_vec()),
        Ok(Event::End(e)) => XmlToken::End(e.to_vec()),
        Ok(Event::Empty(e)) => XmlToken::Empty(e.to_vec()),
        Ok(Event::Text(e)) => XmlToken::Text(e.unescape().ok().map(String::from)),
        Ok(Event::CData(e)) => XmlToken::CData(e.to_vec()),
        Ok(Event::Eof) => return None,
        Ok(_) => XmlToken::Other,
        Err(_) => XmlToken::Bad,
    })
}

/// The attributes in the text of a tag, from a position on.
pub uninterp spec fn xml_attributes(text: Seq<char>, from: int) -> Seq<AttributeModel>;

/// `quick_xml::events::attributes::Attributes`: the attributes in the text of a tag, behind
/// its name. They are a function of the text and the position, and there are none at the end
/// of the text.
#[verifier::external_body]
fn read_attributes(text: &str, from: usize) -> (r: Vec<Option<(Vec<u8>, Vec<u8>)>>)
    requires
        from <= encode_utf8(text@).len(),
    ensures
        attributes_view(r@) == xml_attributes(text@, from as int),
        from == encode_utf8(text@).len() ==> r@.len() == 0,
{
    let all = quick_xml::events::attributes::Attributes::new(text, from);
    all.map(|a| a.ok().map(|a| (a.key.as_ref().to_vec(), a.value.to_vec()))).collect()
}

/// `String::from_utf8`: the text of bytes that are UTF-8.
#[verifier::external_body]
fn text_of_bytes(bytes: Vec<u8>) -> (r: Option<String>)
    ensures
        match r {
            Some(text) => valid_utf8(bytes@) && text@ == decode_utf8(bytes@),
            None => !valid_utf8(bytes@),
        },
{
    String::from_utf8(bytes).ok()
}

/// The tokens of a document.
pub fn read_tokens(xml: &str) -> (r: Vec<XmlToken>)
    ensures
        tokens_view(r@) == xml_tokens(xml@),
{
    let ghost all = xml_tokens(xml@);
    let mut reader = open_document(xml);
    let mut tokens: Vec<XmlToken> = Vec::new();
    proof {
        assert(tokens_view(tokens@) + all =~= all);
    }
    loop
        invariant
            all == xml_tokens(xml@),
            all == tokens_view(tokens@) + unread_tokens(reader),
        decreases unread_tokens(reader).len(),
    {
        let ghost before = tokens_view(tokens@);
        let ghost rest = unread_tokens(reader);
        match next_token(&mut reader) {
            Some(token) => {
                let ghost t = token@;
                tokens.push(token);
                proof {
                    assert(tokens_view(tokens@) =~= before.push(t));
                    assert(before + rest =~= before.push(t) + rest.skip(1));
                }
            },
            None => {
                proof {
                    assert(before + rest =~= before);
                }
                return tokens;
            },
        }
    }
}

// ── Response blocks ────────────────────────────────────────────────

/// The part of a qualified name behind its first colon.
pub open spec fn local_part(name: Seq<u8>) -> Seq<u8> {
    if has_colon(name) {
        name.skip(first_colon(name) + 1)
    } else {
        name
    }
}

pub open spec fn has_colon(name: Seq<u8>) -> bool {
    name.contains(58u8)
}

/// The position of the first colon; the length where there is none.
pub open spec fn first_colon(name: Seq<u8>) -> int
    decreases name.len(),
{
    if name.len() == 0 || name[0] == 58u8 {
        0
    } else {
        1 + first_colon(name.skip(1))
    }
}

pub open spec fn bytes_of(s: Seq<char>) -> Seq<u8> {
    encode_utf8(s)
}

/// Whether a byte is white space between the parts of a tag.
pub open spec fn is_gap(b: u8) -> bool {
    b == 32 || b == 13 || b == 10 || b == 9
}

/// How many bytes of a tag stand before the first white space.
pub open spec fn name_length(tag: Seq<u8>) -> int
    decreases tag.len(),
{
    if tag.len() == 0 || is_gap(tag[0]) {
        0
    } else {
        1 + name_length(tag.skip(1))
    }
}

/// The name of a tag.
pub open spec fn tag_name(tag: Seq<u8>) -> Seq<u8> {
    tag.take(name_length(tag))
}

/// The attributes of a tag. There are none where nothing stands behind its name.
pub open spec fn tag_attributes(tag: Seq<u8>) -> Seq<AttributeModel> {
    if valid_utf8(tag) && name_length(tag) < tag.len() {
        xml_attributes(decode_utf8(tag), name_length(tag))
    } else {
        Seq::empty()
    }
}

pub(crate) proof fn lemma_name_length(tag: Seq<u8>, n: int)
    requires
        0 <= n <= tag.len(),
        forall|i: int| 0 <= i < n ==> !is_gap(#[trigger] tag[i]),
        n < tag.len() ==> is_gap(tag[n]),
    ensures
        name_length(tag) == n,
    decreases tag.len(),
{
    if n > 0 {
        let rest = tag.skip(1);
        assert(!is_gap(tag[0]));
        assert forall|i: int| 0 <= i < n - 1 implies !is_gap(#[trigger] rest[i]) by {
            assert(rest[i] == tag[i + 1]);
        }
        lemma_name_length(rest, n - 1);
    }
}

fn length_of_name(tag: &Vec<u8>) -> (r: usize)
    ensures
        r == name_length(tag@),
        r <= tag@.len(),
{
    let mut i: usize = 0;
    while i < tag.len() && !(tag[i] == 32 || tag[i] == 13 || tag[i] == 10 || tag[i] == 9)
        invariant
            i <= tag@.len(),
            forall|j: int| 0 <= j < i ==> !is_gap(#[trigger] tag@[j]),
        decreases tag@.len() - i,
    {
        i = i + 1;
    }
    proof {
        lemma_name_length(tag@, i as int);
    }
    i
}

fn name_of(tag: &Vec<u8>) -> (r: &[u8])
    ensures
        r@ == tag_name(tag@),
{
    let n: usize = length_of_name(tag);
    let r = slice_subrange(tag.as_slice(), 0, n);
    proof {
        assert(r@ =~= tag@.take(n as int));
    }
    r
}

fn attributes_of(tag: &Vec<u8>) -> (r: Vec<Option<(Vec<u8>, Vec<u8>)>>)
    ensures
        attributes_view(r@) == tag_attributes(tag@),
{
    match text_of_bytes(copy_bytes(tag)) {
        Some(text) => {
            let n: usize = length_of_name(tag);
            proof {
                decode_utf8_encode_utf8(tag@);
            }
            let r = read_attributes(text.as_str(), n);
            proof {
                if n == tag@.len() {
                    assert(attributes_view(r@) =~= Seq::<AttributeModel>::empty());
                }
            }
            r
        },
        None => {
            let r: Vec<Option<(Vec<u8>, Vec<u8>)>> = Vec::new();
            proof {
                assert(attributes_view(r@) =~= Seq::<AttributeModel>::empty());
            }
            r
        },
    }
}

/// The attributes of a tag as they are written, without those that cannot be read.
pub open spec fn attributes_text(attributes: Seq<AttributeModel>) -> Seq<u8>
    decreases attributes.len(),
{
    if attributes.len() == 0 {
        Seq::empty()
    } else {
        let before = attributes_text(attributes.drop_last());
        match attributes.last() {
            Some((key, value)) => before + bytes_of(" "@) + key + bytes_of("=\""@) + value
                + bytes_of("\""@),
            None => before,
        }
    }
}

/// A tag as it is written, with the attributes that can be read.
pub open spec fn tag_text(tag: Seq<u8>, close: Seq<char>) -> Seq<u8> {
    bytes_of("<"@) + tag_name(tag) + attributes_text(tag_attributes(tag)) + bytes_of(close)
}

/// How a byte is written in the text of a document.
pub open spec fn xml_escaped_byte(b: u8) -> Seq<u8> {
    if b == 60 {
        bytes_of("&lt;"@)
    } else if b == 62 {
        bytes_of("&gt;"@)
    } else if b == 38 {
        bytes_of("&amp;"@)
    } else if b == 39 {
        bytes_of("&apos;"@)
    } else if b == 34 {
        bytes_of("&quot;"@)
    } else {
        seq![b]
    }
}

pub open spec fn xml_escaped(bytes: Seq<u8>) -> Seq<u8>
    decreases bytes.len(),
{
    if bytes.len() == 0 {
        Seq::empty()
    } else {
        xml_escaped(bytes.drop_last()) + xml_escaped_byte(bytes.last())
    }
}

/// How content stands in a block: escaped again, or as it is.
pub open spec fn content(bytes: Seq<u8>, escape: bool) -> Seq<u8> {
    if escape {
        xml_escaped(bytes)
    } else {
        bytes
    }
}

/// What is known after some tokens: whether they end inside a response and how deep, the
/// text of that response so far, and the responses before it.
pub struct Blocks {
    pub inside: bool,
    pub depth: nat,
    pub text: Seq<u8>,
    pub done: Seq<Seq<char>>,
}

pub open spec fn no_blocks() -> Blocks {
    Blocks { inside: false, depth: 0, text: Seq::empty(), done: Seq::empty() }
}

/// What is known after one more token.
pub open spec fn with_token(b: Blocks, token: TokenModel, escape: bool) -> Blocks {
    match token {
        TokenModel::Start(tag) => if b.inside {
            Blocks { depth: b.depth + 1, text: b.text + tag_text(tag, ">"@), ..b }
        } else if local_part(tag_name(tag)) == bytes_of("response"@) {
            Blocks { inside: true, depth: 1, text: bytes_of("<response>"@), ..b }
        } else {
            b
        },
        TokenModel::End(name) => if !b.inside {
            b
        } else if local_part(name) == bytes_of("response"@) && b.depth == 1 {
            let text = b.text + bytes_of("</response>"@);
            Blocks {
                inside: false,
                text,
                done: if valid_utf8(text) {
                    b.done.push(decode_utf8(text))
                } else {
                    b.done
                },
                ..b
            }
        } else {
            Blocks {
                depth: if b.depth > 0 {
                    (b.depth - 1) as nat
                } else {
                    0
                },
                text: b.text + bytes_of("</"@) + name + bytes_of(">"@),
                ..b
            }
        },
        TokenModel::Empty(tag) => if b.inside {
            Blocks { text: b.text + tag_text(tag, "/>"@), ..b }
        } else {
            b
        },
        TokenModel::Text(text) => if b.inside && text is Some {
            Blocks { text: b.text + content(bytes_of(text->0), escape), ..b }
        } else {
            b
        },
        TokenModel::CData(data) => if b.inside {
            Blocks { text: b.text + content(data, escape), ..b }
        } else {
            b
        },
        _ => b,
    }
}

pub open spec fn after_tokens(tokens: Seq<TokenModel>, escape: bool) -> Blocks
    decreases tokens.len(),
{
    if tokens.len() == 0 {
        no_blocks()
    } else {
        with_token(after_tokens(tokens.drop_last(), escape), tokens.last(), escape)
    }
}

/// The tokens before the first that is no XML.
pub open spec fn good_tokens(tokens: Seq<TokenModel>) -> Seq<TokenModel>
    decreases tokens.len(),
{
    if tokens.len() == 0 || tokens[0] == TokenModel::Bad {
        Seq::empty()
    } else {
        seq![tokens[0]] + good_tokens(tokens.skip(1))
    }
}

/// The response blocks of a document, each with its tags.
pub open spec fn response_blocks(tokens: Seq<TokenModel>, escape: bool) -> Seq<Seq<char>> {
    after_tokens(good_tokens(tokens), escape).done
}

pub(crate) proof fn lemma_first_colon(name: Seq<u8>)
    ensures
        0 <= first_colon(name) <= name.len(),
        first_colon(name) < name.len() ==> name[first_colon(name)] == 58u8,
        forall|i: int| 0 <= i < first_colon(name) ==> name[i] != 58u8,
        has_colon(name) <==> first_colon(name) < name.len(),
    decreases name.len(),
{
    if name.len() > 0 && name[0] != 58u8 {
        let rest = name.skip(1);
        lemma_first_colon(rest);
        assert forall|i: int| 0 <= i < first_colon(name) implies name[i] != 58u8 by {
            if i > 0 {
                assert(name[i] == rest[i - 1]);
            }
        }
        if has_colon(name) {
            let i = choose|i: int| 0 <= i < name.len() && name[i] == 58u8;
            assert(rest[i - 1] == 58u8);
        }
    }
    if first_colon(name) < name.len() {
        assert(name[first_colon(name)] == 58u8);
    }
}

/// Strip namespace prefix from a qualified XML name, returning the local part.
pub fn local_name(qname: &[u8]) -> (r: &[u8])
    ensures
        r@ == local_part(qname@),
{
    let mut i: usize = 0;
    proof {
        assert(qname@.skip(0) =~= qname@);
        lemma_first_colon(qname@);
    }
    while i < qname.len()
        invariant
            i <= qname@.len(),
            i <= first_colon(qname@) <= qname@.len(),
            first_colon(qname@) < qname@.len() ==> qname@[first_colon(qname@)] == 58u8,
            forall|j: int| 0 <= j < first_colon(qname@) ==> qname@[j] != 58u8,
            has_colon(qname@) <==> first_colon(qname@) < qname@.len(),
        decreases qname@.len() - i,
    {
        if qname[i] == 58 {
            proof {
                assert(qname@.subrange(i + 1, qname@.len() as int) =~= qname@.skip(i + 1));
            }
            return slice_subrange(qname, i + 1, qname.len());
        }
        i = i + 1;
    }
    qname
}

/// Appends bytes.
pub fn push_bytes(out: &mut Vec<u8>, bytes: &[u8])
    ensures
        final(out)@ == old(out)@ + bytes@,
{
    let ghost start = out@;
    let mut i: usize = 0;
    proof {
        assert(start + bytes@.take(0) =~= start);
    }
    while i < bytes.len()
        invariant
            i <= bytes@.len(),
            out@ == start + bytes@.take(i as int),
        decreases bytes@.len() - i,
    {
        out.push(bytes[i]);
        i = i + 1;
        proof {
            assert(start + bytes@.take(i as int) =~= (start + bytes@.take(i - 1)).push(
                bytes@[i - 1],
            ));
        }
    }
    proof {
        assert(bytes@.take(i as int) =~= bytes@);
    }
}

fn push_str(out: &mut Vec<u8>, s: &str)
    ensures
        final(out)@ == old(out)@ + bytes_of(s@),
{
    push_bytes(out, s.as_bytes());
}

/// Appends bytes in the form in which they stand in the text of a document.
fn push_escaped(out: &mut Vec<u8>, bytes: &[u8])
    ensures
        final(out)@ == old(out)@ + xml_escaped(bytes@),
{
    let ghost start = out@;
    let mut i: usize = 0;
    proof {
        assert(bytes@.take(0) =~= Seq::<u8>::empty());
        assert(start + xml_escaped(bytes@.take(0)) =~= start);
    }
    while i < bytes.len()
        invariant
            i <= bytes@.len(),
            out@ == start + xml_escaped(bytes@.take(i as int)),
        decreases bytes@.len() - i,
    {
        let b: u8 = bytes[i];
        let ghost before = out@;
        if b == 60 {
            push_str(out, "&lt;");
        } else if b == 62 {
            push_str(out, "&gt;");
        } else if b == 38 {
            push_str(out, "&amp;");
        } else if b == 39 {
            push_str(out, "&apos;");
        } else if b == 34 {
            push_str(out, "&quot;");
        } else {
            out.push(b);
        }
        i = i + 1;
        proof {
            let done = bytes@.take(i as int);
            assert(done.drop_last() =~= bytes@.take(i - 1));
            assert(done.last() == b);
            assert(out@ =~= before + xml_escaped_byte(b));
            assert(out@ =~= start + xml_escaped(done));
        }
    }
    proof {
        assert(bytes@.take(i as int) =~= bytes@);
    }
}

fn push_content(out: &mut Vec<u8>, bytes: &[u8], escape: bool)
    ensures
        final(out)@ == old(out)@ + content(bytes@, escape),
{
    if escape {
        push_escaped(out, bytes);
    } else {
        push_bytes(out, bytes);
    }
}

fn push_attributes(out: &mut Vec<u8>, attributes: &Vec<Option<(Vec<u8>, Vec<u8>)>>)
    ensures
        final(out)@ == old(out)@ + attributes_text(attributes_view(attributes@)),
{
    let ghost start = out@;
    let ghost all = attributes_view(attributes@);
    let mut i: usize = 0;
    proof {
        assert(all.take(0) =~= Seq::<AttributeModel>::empty());
        assert(start + attributes_text(all.take(0)) =~= start);
    }
    while i < attributes.len()
        invariant
            i <= attributes@.len(),
            all == attributes_view(attributes@),
            out@ == start + attributes_text(all.take(i as int)),
        decreases attributes@.len() - i,
    {
        let ghost before = out@;
        proof {
            assert(all.take(i + 1).drop_last() =~= all.take(i as int));
            assert(all.take(i + 1).last() == all[i as int]);
        }
        if let Some(pair) = &attributes[i] {
            push_str(out, " ");
            push_bytes(out, pair.0.as_slice());
            push_str(out, "=\"");
            push_bytes(out, pair.1.as_slice());
            push_str(out, "\"");
            proof {
                assert(all[i as int] == Some((pair.0@, pair.1@)));
                assert(out@ =~= start + attributes_text(all.take(i + 1)));
            }
        }
        i = i + 1;
    }
    proof {
        assert(all.take(i as int) =~= all);
    }
}

/// Appends a tag with its attributes.
fn push_tag(out: &mut Vec<u8>, tag: &Vec<u8>, close: &str)
    ensures
        final(out)@ == old(out)@ + tag_text(tag@, close@),
{
    push_str(out, "<");
    push_bytes(out, name_of(tag));
    push_attributes(out, &attributes_of(tag));
    push_str(out, close);
    proof {
        assert(out@ =~= old(out)@ + tag_text(tag@, close@));
    }
}

fn push_end_tag(out: &mut Vec<u8>, name: &Vec<u8>)
    ensures
        final(out)@ == old(out)@ + bytes_of("</"@) + name@ + bytes_of(">"@),
{
    push_str(out, "</");
    push_bytes(out, name.as_slice());
    push_str(out, ">");
}

fn is_response(name: &[u8]) -> (r: bool)
    ensures
        r == (local_part(name@) == bytes_of("response"@)),
{
    same_bytes(local_name(name), "response".as_bytes())
}

pub open spec fn strings_view(v: Seq<String>) -> Seq<Seq<char>> {
    v.map_values(|s: String| s@)
}

proof fn lemma_good_tokens(tokens: Seq<TokenModel>, n: int)
    requires
        0 <= n <= tokens.len(),
        forall|i: int| 0 <= i < n ==> tokens[i] != TokenModel::Bad,
        n < tokens.len() ==> tokens[n] == TokenModel::Bad,
    ensures
        good_tokens(tokens) == tokens.take(n),
    decreases n,
{
    if n == 0 {
        assert(tokens.take(0) =~= Seq::<TokenModel>::empty());
    } else {
        let rest = tokens.skip(1);
        assert forall|i: int| 0 <= i < n - 1 implies rest[i] != TokenModel::Bad by {
            assert(rest[i] == tokens[i + 1]);
        }
        lemma_good_tokens(rest, n - 1);
        assert(tokens.take(n) =~= seq![tokens[0]] + rest.take(n - 1));
    }
}

/// The response blocks that tokens make up.
pub fn blocks_of_tokens(tokens: &Vec<XmlToken>, escape: bool) -> (r: Vec<String>)
    ensures
        strings_view(r@) == response_blocks(tokens_view(tokens@), escape),
{
    let ghost all = tokens_view(tokens@);
    let mut done: Vec<String> = Vec::new();
    let mut inside = false;
    let mut depth: usize = 0;
    let mut text: Vec<u8> = Vec::new();
    let mut i: usize = 0;
    proof {
        assert(all.take(0) =~= Seq::<TokenModel>::empty());
        assert(strings_view(done@) =~= Seq::<Seq<char>>::empty());
        if tokens@.len() == 0 {
            lemma_good_tokens(all, 0);
        }
    }
    while i < tokens.len()
        invariant
            i <= tokens@.len(),
            all == tokens_view(tokens@),
            forall|j: int| 0 <= j < i ==> all[j] != TokenModel::Bad,
            after_tokens(all.take(i as int), escape) == (Blocks {
                inside,
                depth: depth as nat,
                text: text@,
                done: strings_view(done@),
            }),
            depth <= i,
            i == tokens@.len() ==> good_tokens(all) == all.take(i as int),
        ensures
            strings_view(done@) == response_blocks(all, escape),
        decreases tokens@.len() - i,
    {
        let ghost before = after_tokens(all.take(i as int), escape);
        proof {
            assert(all.take(i + 1).drop_last() =~= all.take(i as int));
            assert(all.take(i + 1).last() == tokens@[i as int]@);
            assert(all[i as int] == tokens@[i as int]@);
        }
        match &tokens[i] {
            XmlToken::Start(tag) => {
                if inside {
                    depth = depth + 1;
                    push_tag(&mut text, tag, ">");
                } else if is_response(name_of(tag)) {
                    inside = true;
                    depth = 1;
                    text = Vec::new();
                    push_str(&mut text, "<response>");
                    proof {
                        assert(text@ =~= bytes_of("<response>"@));
                    }
                }
            },
            XmlToken::End(name) => {
                if inside {
                    if is_response(name.as_slice()) && depth == 1 {
                        push_str(&mut text, "</response>");
                        let ghost earlier = strings_view(done@);
                        if let Some(block) = text_of_bytes(copy_bytes(&text)) {
                            let ghost b = block@;
                            done.push(block);
                            proof {
                                assert(strings_view(done@) =~= earlier.push(b));
                            }
                        }
                        inside = false;
                    } else {
                        push_end_tag(&mut text, name);
                        if depth > 0 {
                            depth = depth - 1;
                        }
                    }
                }
            },
            XmlToken::Empty(tag) => {
                if inside {
                    push_tag(&mut text, tag, "/>");
                }
            },
            XmlToken::Text(piece) => {
                if inside {
                    if let Some(piece) = piece {
                        push_content(&mut text, piece.as_str().as_bytes(), escape);
                    }
                }
            },
            XmlToken::CData(data) => {
                if inside {
                    push_content(&mut text, data.as_slice(), escape);
                }
            },
            XmlToken::Other => {},
            XmlToken::Bad => {
                proof {
                    lemma_good_tokens(all, i as int);
                }
                break;
            },
        }
        i = i + 1;
        proof {
            if i == tokens@.len() {
                lemma_good_tokens(all, i as int);
            }
        }
    }
    done
}

fn copy_bytes(v: &Vec<u8>) -> (r: Vec<u8>)
    ensures
        r@ == v@,
{
    let mut r: Vec<u8> = Vec::new();
    push_bytes(&mut r, v.as_slice());
    proof {
        assert(r@ =~= v@);
    }
    r
}

// ── The text of an element ─────────────────────────────────────────

/// `text` without the white space around it, if anything is left.
pub open spec fn trimmed_text(text: Seq<char>) -> Option<Seq<char>> {
    if trim(text).len() > 0 {
        Some(trim(text))
    } else {
        None
    }
}

pub open spec fn trimmed_bytes(bytes: Seq<u8>) -> Option<Seq<char>> {
    if valid_utf8(bytes) {
        trimmed_text(decode_utf8(bytes))
    } else {
        None
    }
}

/// The text that a token holds.
pub open spec fn token_text(token: TokenModel) -> Option<Seq<char>> {
    match token {
        TokenModel::Text(Some(text)) => trimmed_text(text),
        TokenModel::CData(data) => trimmed_bytes(data),
        _ => None,
    }
}

/// Whether a token is the start tag of an element with a local name.
pub open spec fn starts(token: TokenModel, name: Seq<u8>) -> bool {
    match token {
        TokenModel::Start(tag) => local_part(tag_name(tag)) == name,
        _ => false,
    }
}

/// The text that directly follows the first start tag with a local name that is followed
/// by one.
pub open spec fn element_text(tokens: Seq<TokenModel>, name: Seq<u8>) -> Option<Seq<char>>
    decreases tokens.len(),
{
    if tokens.len() == 0 || tokens[0] == TokenModel::Bad {
        None
    } else if !starts(tokens[0], name) {
        element_text(tokens.skip(1), name)
    } else if tokens.len() == 1 {
        None
    } else if token_text(tokens[1]) is Some {
        token_text(tokens[1])
    } else {
        element_text(tokens.skip(2), name)
    }
}

/// The content of an element that is `depth` tags deep at the first of the tokens, behind
/// the content `text`, and the tokens that follow the element.
pub open spec fn element_content(tokens: Seq<TokenModel>, depth: nat, text: Seq<u8>) -> (
    Seq<u8>,
    Seq<TokenModel>,
)
    decreases tokens.len(),
{
    if tokens.len() == 0 {
        (text, tokens)
    } else {
        let rest = tokens.skip(1);
        match tokens[0] {
            TokenModel::Bad => (text, rest),
            TokenModel::Start(tag) => element_content(
                rest,
                depth + 1,
                text + bytes_of("<"@) + tag_name(tag) + bytes_of(">"@),
            ),
            TokenModel::End(name) => if depth <= 1 {
                (text, rest)
            } else {
                element_content(
                    rest,
                    (depth - 1) as nat,
                    text + bytes_of("</"@) + name + bytes_of(">"@),
                )
            },
            TokenModel::Empty(tag) => element_content(
                rest,
                depth,
                text + bytes_of("<"@) + tag_name(tag) + bytes_of("/>"@),
            ),
            TokenModel::Text(Some(piece)) => element_content(rest, depth, text + bytes_of(piece)),
            _ => element_content(rest, depth, text),
        }
    }
}

proof fn lemma_content_is_shorter(tokens: Seq<TokenModel>, depth: nat, text: Seq<u8>)
    ensures
        element_content(tokens, depth, text).1.len() <= tokens.len(),
    decreases tokens.len(),
{
    if tokens.len() > 0 {
        let rest = tokens.skip(1);
        match tokens[0] {
            TokenModel::Bad => {},
            TokenModel::Start(tag) => {
                lemma_content_is_shorter(
                    rest,
                    depth + 1,
                    text + bytes_of("<"@) + tag_name(tag) + bytes_of(">"@),
                );
            },
            TokenModel::End(name) => {
                if depth > 1 {
                    lemma_content_is_shorter(
                        rest,
                        (depth - 1) as nat,
                        text + bytes_of("</"@) + name + bytes_of(">"@),
                    );
                }
            },
            TokenModel::Empty(tag) => {
                lemma_content_is_shorter(
                    rest,
                    depth,
                    text + bytes_of("<"@) + tag_name(tag) + bytes_of("/>"@),
                );
            },
            TokenModel::Text(Some(piece)) => {
                lemma_content_is_shorter(rest, depth, text + bytes_of(piece));
            },
            _ => {
                lemma_content_is_shorter(rest, depth, text);
            },
        }
    }
}

/// The content of the first element with a local name that has any, with the tags inside.
pub open spec fn element_inner(tokens: Seq<TokenModel>, name: Seq<u8>) -> Option<Seq<char>>
    decreases tokens.len(),
    via element_inner_decreases
{
    if tokens.len() == 0 || tokens[0] == TokenModel::Bad {
        None
    } else if !starts(tokens[0], name) {
        element_inner(tokens.skip(1), name)
    } else {
        let (text, rest) = element_content(tokens.skip(1), 1, Seq::empty());
        if trimmed_bytes(text) is Some {
            trimmed_bytes(text)
        } else {
            element_inner(rest, name)
        }
    }
}

#[via_fn]
proof fn element_inner_decreases(tokens: Seq<TokenModel>, name: Seq<u8>) {
    if tokens.len() > 0 {
        lemma_content_is_shorter(tokens.skip(1), 1, Seq::empty());
    }
}

pub open spec fn opt_string(s: Option<String>) -> Option<Seq<char>> {
    match s {
        Some(s) => Some(s@),
        None => None,
    }
}

fn trim_text(text: &str) -> (r: Option<String>)
    ensures
        opt_string(r) == trimmed_text(text@),
{
    let cs = chars_of(text);
    let t = trimmed(&cs);
    if t.len() > 0 {
        Some(text_of(t))
    } else {
        None
    }
}

fn trim_bytes(bytes: &Vec<u8>) -> (r: Option<String>)
    ensures
        opt_string(r) == trimmed_bytes(bytes@),
{
    match text_of_bytes(copy_bytes(bytes)) {
        Some(text) => trim_text(text.as_str()),
        None => None,
    }
}

fn text_in(token: &XmlToken) -> (r: Option<String>)
    ensures
        opt_string(r) == token_text(token@),
{
    match token {
        XmlToken::Text(Some(text)) => trim_text(text.as_str()),
        XmlToken::CData(data) => trim_bytes(data),
        _ => None,
    }
}

fn is_start(token: &XmlToken, name: &[u8]) -> (r: bool)
    ensures
        r == starts(token@, name@),
{
    match token {
        XmlToken::Start(tag) => same_bytes(local_name(name_of(tag)), name),
        _ => false,
    }
}

fn is_bad(token: &XmlToken) -> (r: bool)
    ensures
        r == (token@ == TokenModel::Bad),
{
    match token {
        XmlToken::Bad => true,
        _ => false,
    }
}

/// The text that directly follows the first start tag with a local name that is followed
/// by one.
pub fn text_of_tokens(tokens: &Vec<XmlToken>, name: &str) -> (r: Option<String>)
    ensures
        opt_string(r) == element_text(tokens_view(tokens@), bytes_of(name@)),
{
    let ghost all = tokens_view(tokens@);
    let target = name.as_bytes();
    let mut i: usize = 0;
    proof {
        assert(all.skip(0) =~= all);
    }
    while i < tokens.len()
        invariant
            i <= tokens@.len(),
            all == tokens_view(tokens@),
            target@ == bytes_of(name@),
            element_text(all, target@) == element_text(all.skip(i as int), target@),
        decreases tokens@.len() - i,
    {
        let ghost rest = all.skip(i as int);
        proof {
            assert(rest[0] == tokens@[i as int]@);
            assert(rest.skip(1) =~= all.skip(i + 1));
        }
        if is_bad(&tokens[i]) {
            return None;
        }
        if is_start(&tokens[i], target) {
            if i + 1 == tokens.len() {
                return None;
            }
            proof {
                assert(rest[1] == tokens@[i + 1]@);
                assert(rest.skip(2) =~= all.skip(i + 2));
            }
            let text = text_in(&tokens[i + 1]);
            if text.is_some() {
                return text;
            }
            i = i + 2;
        } else {
            i = i + 1;
        }
    }
    None
}

/// The content of an element, and the position behind it.
fn content_from(tokens: &Vec<XmlToken>, from: usize) -> (r: (Vec<u8>, usize))
    requires
        1 <= from <= tokens@.len(),
    ensures
        from <= r.1 <= tokens@.len(),
        element_content(tokens_view(tokens@).skip(from as int), 1, Seq::empty()) == (
            r.0@,
            tokens_view(tokens@).skip(r.1 as int),
        ),
{
    let ghost all = tokens_view(tokens@);
    let ghost whole = element_content(all.skip(from as int), 1, Seq::empty());
    let mut text: Vec<u8> = Vec::new();
    let mut depth: usize = 1;
    let mut i: usize = from;
    proof {
        assert(text@ =~= Seq::<u8>::empty());
    }
    while i < tokens.len()
        invariant
            1 <= from <= i <= tokens@.len(),
            1 <= depth <= i - from + 1,
            all == tokens_view(tokens@),
            whole == element_content(all.skip(from as int), 1, Seq::empty()),
            whole == element_content(all.skip(i as int), depth as nat, text@),
        decreases tokens@.len() - i,
    {
        let ghost rest = all.skip(i as int);
        proof {
            assert(rest[0] == tokens@[i as int]@);
            assert(rest.skip(1) =~= all.skip(i + 1));
        }
        let ghost before = text@;
        match &tokens[i] {
            XmlToken::Bad => {
                return (text, i + 1);
            },
            XmlToken::Start(tag) => {
                depth = depth + 1;
                push_str(&mut text, "<");
                push_bytes(&mut text, name_of(tag));
                push_str(&mut text, ">");
            },
            XmlToken::End(name) => {
                if depth == 1 {
                    return (text, i + 1);
                }
                depth = depth - 1;
                push_end_tag(&mut text, name);
            },
            XmlToken::Empty(tag) => {
                push_str(&mut text, "<");
                push_bytes(&mut text, name_of(tag));
                push_str(&mut text, "/>");
            },
            XmlToken::Text(piece) => {
                if let Some(piece) = piece {
                    push_bytes(&mut text, piece.as_str().as_bytes());
                }
            },
            XmlToken::CData(_) => {},
            XmlToken::Other => {},
        }
        i = i + 1;
    }
    (text, i)
}

/// The content of the first element with a local name that has any, with the tags inside.
pub fn inner_of_tokens(tokens: &Vec<XmlToken>, name: &str) -> (r: Option<String>)
    ensures
        opt_string(r) == element_inner(tokens_view(tokens@), bytes_of(name@)),
{
    let ghost all = tokens_view(tokens@);
    let target = name.as_bytes();
    let mut i: usize = 0;
    proof {
        assert(all.skip(0) =~= all);
    }
    while i < tokens.len()
        invariant
            i <= tokens@.len(),
            all == tokens_view(tokens@),
            target@ == bytes_of(name@),
            element_inner(all, target@) == element_inner(all.skip(i as int), target@),
        decreases tokens@.len() - i,
    {
        let ghost rest = all.skip(i as int);
        proof {
            assert(rest[0] == tokens@[i as int]@);
            assert(rest.skip(1) =~= all.skip(i + 1));
        }
        if is_bad(&tokens[i]) {
            return None;
        }
        if is_start(&tokens[i], target) {
            let (inner, next) = content_from(tokens, i + 1);
            let text = trim_bytes(&inner);
            if text.is_some() {
                return text;
            }
            i = next;
        } else {
            i = i + 1;
        }
    }
    None
}

// ── Elements inside elements ───────────────────────────────────────

/// Whether an element with the local name `inner` stands inside one with the local name
/// `outer`, where `depth` elements from such an outer one on are open at the first of the
/// tokens, and 0 where none is.
pub open spec fn stands_inside(
    tokens: Seq<TokenModel>,
    outer: Seq<u8>,
    inner: Seq<u8>,
    depth: nat,
) -> bool
    decreases tokens.len(),
{
    if tokens.len() == 0 {
        false
    } else {
        let rest = tokens.skip(1);
        match tokens[0] {
            TokenModel::Bad => false,
            TokenModel::Start(tag) => if depth > 0 {
                local_part(tag_name(tag)) == inner || stands_inside(rest, outer, inner, depth + 1)
            } else if local_part(tag_name(tag)) == outer {
                stands_inside(rest, outer, inner, 1)
            } else {
                stands_inside(rest, outer, inner, 0)
            },
            TokenModel::Empty(tag) => (depth > 0 && local_part(tag_name(tag)) == inner)
                || stands_inside(rest, outer, inner, depth),
            TokenModel::End(_) => stands_inside(
                rest,
                outer,
                inner,
                if depth > 0 {
                    (depth - 1) as nat
                } else {
                    0
                },
            ),
            _ => stands_inside(rest, outer, inner, depth),
        }
    }
}

/// Whether an element with one local name stands inside one with another.
pub fn tokens_hold_inside(tokens: &Vec<XmlToken>, outer: &str, inner: &str) -> (r: bool)
    ensures
        r == stands_inside(tokens_view(tokens@), bytes_of(outer@), bytes_of(inner@), 0),
{
    let ghost all = tokens_view(tokens@);
    let out = outer.as_bytes();
    let within = inner.as_bytes();
    let mut depth: usize = 0;
    let mut i: usize = 0;
    proof {
        assert(all.skip(0) =~= all);
    }
    while i < tokens.len()
        invariant
            i <= tokens@.len(),
            depth <= i,
            all == tokens_view(tokens@),
            out@ == bytes_of(outer@),
            within@ == bytes_of(inner@),
            stands_inside(all, out@, within@, 0) == stands_inside(
                all.skip(i as int),
                out@,
                within@,
                depth as nat,
            ),
        decreases tokens@.len() - i,
    {
        proof {
            assert(all.skip(i as int)[0] == tokens@[i as int]@);
            assert(all.skip(i as int).skip(1) =~= all.skip(i + 1));
        }
        match &tokens[i] {
            XmlToken::Bad => {
                return false;
            },
            XmlToken::Start(tag) => {
                let name = local_name(name_of(tag));
                if depth > 0 {
                    if same_bytes(name, within) {
                        return true;
                    }
                    depth = depth + 1;
                } else if same_bytes(name, out) {
                    depth = 1;
                }
            },
            XmlToken::Empty(tag) => {
                if depth > 0 && same_bytes(local_name(name_of(tag)), within) {
                    return true;
                }
            },
            XmlToken::End(_) => {
                if depth > 0 {
                    depth = depth - 1;
                }
            },
            _ => {},
        }
        i = i + 1;
    }
    false
}

// ── Documents ──────────────────────────────────────────────────────

/// The text of an element of a document, as [`element_text`] finds it.
pub open spec fn document_element(xml: Seq<char>, name: Seq<char>) -> Option<Seq<char>> {
    element_text(xml_tokens(xml), bytes_of(name))
}

/// The content of an element of a document, as [`element_inner`] finds it.
pub open spec fn document_inner(xml: Seq<char>, name: Seq<char>) -> Option<Seq<char>> {
    element_inner(xml_tokens(xml), bytes_of(name))
}

/// Split a WebDAV multistatus XML response into per-`<d:response>` blocks.
pub fn xml_response_blocks(xml: &str) -> (r: Vec<String>)
    ensures
        strings_view(r@) == response_blocks(xml_tokens(xml@), false),
{
    let tokens = read_tokens(xml);
    blocks_of_tokens(&tokens, false)
}

/// Extract the text content of a simple element by its local name from an XML fragment.
///
/// Namespace-aware: matches `<d:href>`, `<D:href>`, `<href>` etc.
pub fn xml_extract_text(xml: &str, local_name_target: &str) -> (r: Option<String>)
    ensures
        opt_string(r) == document_element(xml@, local_name_target@),
{
    let tokens = read_tokens(xml);
    text_of_tokens(&tokens, local_name_target)
}

/// Extract the inner XML/text content of a named element (namespace-agnostic).
///
/// Unlike `xml_extract_text`, this captures all inner content including nested tags,
/// which is needed for elements like `<current-user-principal>` that contain an `<href>`.
pub fn xml_extract_inner(xml: &str, local_name_target: &str) -> (r: Option<String>)
    ensures
        opt_string(r) == document_inner(xml@, local_name_target@),
{
    let tokens = read_tokens(xml);
    inner_of_tokens(&tokens, local_name_target)
}

} // verus!
