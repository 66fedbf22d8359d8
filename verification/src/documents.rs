//! What is found in the elements of a document.

use crate::text::{is_space, trim, trim_end, trim_start};
use crate::xml::{
    after_tokens, attributes_text, bytes_of, element_content, element_inner, element_text,
    first_colon, good_tokens, is_gap, lemma_first_colon, lemma_name_length, local_part, no_blocks,
    response_blocks, stands_inside, starts, tag_attributes, tag_name, tag_text, with_token,
    xml_escaped, AttributeModel, Blocks, TokenModel,
};
use vstd::prelude::*;
use vstd::utf8::{encode_utf8_decode_utf8, encode_utf8_valid_utf8};

verus! {

// ── Names ──────────────────────────────────────────────────────────

/// Whether a byte is a blank, a tab or the end of a line.
pub open spec fn is_white(b: u8) -> bool {
    b == 9 || b == 10 || b == 13 || b == 32
}

/// Whether a tag has a name: nothing stands behind it, or white space does.
pub open spec fn is_tag(tag: Seq<u8>, name: Seq<u8>) -> bool {
    &&& forall|i: int| 0 <= i < name.len() ==> !is_white(#[trigger] name[i])
    &&& name.is_prefix_of(tag)
    &&& name.len() < tag.len() ==> is_white(tag[name.len() as int])
}

/// Whether a name is a local name, alone or behind a prefix and a colon.
pub open spec fn is_qualified(name: Seq<u8>, local: Seq<u8>) -> bool {
    ||| name == local && !name.contains(58u8)
    ||| exists|prefix: Seq<u8>|
        !prefix.contains(58u8) && name == #[trigger] (prefix + seq![58u8]) + local
}

/// A tag has one name, and a name one local name, whatever its prefix.
pub proof fn lemma_names_of_tag(tag: Seq<u8>, name: Seq<u8>, local: Seq<u8>)
    requires
        is_tag(tag, name),
        is_qualified(name, local),
    ensures
        tag_name(tag) == name,
        local_part(name) == local,
{
    let n = name.len() as int;
    assert forall|i: int| 0 <= i < n implies !is_gap(#[trigger] tag[i]) by {
        assert(tag[i] == name[i]);
        assert(!is_white(name[i]));
    }
    lemma_name_length(tag, n);
    assert(tag.take(n) =~= name);
    lemma_first_colon(name);
    if !(name == local && !name.contains(58u8)) {
        let prefix = choose|prefix: Seq<u8>|
            !prefix.contains(58u8) && name == #[trigger] (prefix + seq![58u8]) + local;
        let k = prefix.len() as int;
        assert(name[k] == 58u8);
        assert(name.contains(58u8));
        let c = first_colon(name);
        if c < k {
            assert(prefix[c] == 58u8);
        }
        assert(c == k);
        assert(name.skip(k + 1) =~= local);
    }
}

// ── Trees ──────────────────────────────────────────────────────────

/// Elements, texts and data next to each other.
pub enum Forest {
    Nothing,
    Element {
        tag: Seq<u8>,
        name: Seq<u8>,
        local: Seq<u8>,
        inside: Box<Forest>,
        next: Box<Forest>,
    },
    Void { tag: Seq<u8>, name: Seq<u8>, local: Seq<u8>, next: Box<Forest> },
    Text { text: Seq<char>, next: Box<Forest> },
    Data { data: Seq<u8>, next: Box<Forest> },
}

/// Whether the names in a forest are those of its tags.
pub open spec fn is_named(f: Forest) -> bool
    decreases f,
{
    match f {
        Forest::Nothing => true,
        Forest::Element { tag, name, local, inside, next } => {
            &&& is_tag(tag, name)
            &&& is_qualified(name, local)
            &&& is_named(*inside)
            &&& is_named(*next)
        },
        Forest::Void { tag, name, local, next } => {
            &&& is_tag(tag, name)
            &&& is_qualified(name, local)
            &&& is_named(*next)
        },
        Forest::Text { text, next } => is_named(*next),
        Forest::Data { data, next } => is_named(*next),
    }
}

/// Whether no tag of a forest has attributes.
pub open spec fn is_bare(f: Forest) -> bool
    decreases f,
{
    match f {
        Forest::Nothing => true,
        Forest::Element { tag, name, inside, next, .. } => tag == name && is_bare(*inside)
            && is_bare(*next),
        Forest::Void { tag, name, next, .. } => tag == name && is_bare(*next),
        Forest::Text { text, next } => is_bare(*next),
        Forest::Data { data, next } => is_bare(*next),
    }
}

/// The tokens of a forest.
pub open spec fn tokens_of(f: Forest) -> Seq<TokenModel>
    decreases f,
{
    match f {
        Forest::Nothing => Seq::empty(),
        Forest::Element { tag, name, inside, next, .. } => seq![TokenModel::Start(tag)]
            + tokens_of(*inside) + seq![TokenModel::End(name)] + tokens_of(*next),
        Forest::Void { tag, next, .. } => seq![TokenModel::Empty(tag)] + tokens_of(*next),
        Forest::Text { text, next } => seq![TokenModel::Text(Some(text))] + tokens_of(*next),
        Forest::Data { data, next } => seq![TokenModel::CData(data)] + tokens_of(*next),
    }
}

/// Whether an element with a local name stands somewhere in a forest.
pub open spec fn holds(f: Forest, wanted: Seq<u8>) -> bool
    decreases f,
{
    match f {
        Forest::Nothing => false,
        Forest::Element { local, inside, next, .. } => local == wanted || holds(*inside, wanted)
            || holds(*next, wanted),
        Forest::Void { local, next, .. } => local == wanted || holds(*next, wanted),
        Forest::Text { text, next } => holds(*next, wanted),
        Forest::Data { data, next } => holds(*next, wanted),
    }
}

/// Whether an element with the local name `inner` stands somewhere inside one with the local
/// name `outer`.
pub open spec fn holds_inside(f: Forest, outer: Seq<u8>, inner: Seq<u8>) -> bool
    decreases f,
{
    match f {
        Forest::Nothing => false,
        Forest::Element { local, inside, next, .. } => {
            ||| local == outer && holds(*inside, inner)
            ||| holds_inside(*inside, outer, inner)
            ||| holds_inside(*next, outer, inner)
        },
        Forest::Void { next, .. } => holds_inside(*next, outer, inner),
        Forest::Text { text, next } => holds_inside(*next, outer, inner),
        Forest::Data { data, next } => holds_inside(*next, outer, inner),
    }
}

proof fn lemma_inside_is_held(f: Forest, outer: Seq<u8>, inner: Seq<u8>)
    ensures
        holds_inside(f, outer, inner) ==> holds(f, inner),
    decreases f,
{
    match f {
        Forest::Nothing => {},
        Forest::Element { inside, next, .. } => {
            lemma_inside_is_held(*inside, outer, inner);
            lemma_inside_is_held(*next, outer, inner);
        },
        Forest::Void { next, .. } => lemma_inside_is_held(*next, outer, inner),
        Forest::Text { text, next } => lemma_inside_is_held(*next, outer, inner),
        Forest::Data { data, next } => lemma_inside_is_held(*next, outer, inner),
    }
}

proof fn lemma_first_token(token: TokenModel, rest: Seq<TokenModel>, more: Seq<TokenModel>)
    ensures
        (seq![token] + rest + more)[0] == token,
        (seq![token] + rest + more).skip(1) == rest + more,
        (seq![token] + rest + more).len() > 0,
{
    assert((seq![token] + rest + more).skip(1) =~= rest + more);
}

proof fn lemma_element_tokens(f: Forest, more: Seq<TokenModel>)
    requires
        f is Element,
    ensures
        ({
            let all = tokens_of(f) + more;
            let inside = tokens_of(*f->Element_inside);
            let after = seq![TokenModel::End(f->Element_name)] + (tokens_of(*f->Element_next) + more);
            &&& all.len() > 0
            &&& all[0] == TokenModel::Start(f->Element_tag)
            &&& all.skip(1) == inside + after
            &&& after[0] == TokenModel::End(f->Element_name)
            &&& after.len() > 0
            &&& after.skip(1) == tokens_of(*f->Element_next) + more
        }),
{
    let all = tokens_of(f) + more;
    let inside = tokens_of(*f->Element_inside);
    let after = seq![TokenModel::End(f->Element_name)] + (tokens_of(*f->Element_next) + more);
    assert(all.skip(1) =~= inside + after);
    assert(after.skip(1) =~= tokens_of(*f->Element_next) + more);
}

proof fn lemma_stands_inside(
    f: Forest,
    more: Seq<TokenModel>,
    outer: Seq<u8>,
    inner: Seq<u8>,
    depth: nat,
)
    requires
        is_named(f),
    ensures
        depth > 0 ==> stands_inside(tokens_of(f) + more, outer, inner, depth) == (holds(f, inner)
            || stands_inside(more, outer, inner, depth)),
        depth == 0 ==> stands_inside(tokens_of(f) + more, outer, inner, 0) == (holds_inside(
            f,
            outer,
            inner,
        ) || stands_inside(more, outer, inner, 0)),
    decreases f,
{
    let all = tokens_of(f) + more;
    match f {
        Forest::Nothing => {
            assert(all =~= more);
        },
        Forest::Element { tag, name, local, inside, next } => {
            lemma_names_of_tag(tag, name, local);
            lemma_element_tokens(f, more);
            let after = seq![TokenModel::End(name)] + (tokens_of(*next) + more);
            lemma_stands_inside(*next, more, outer, inner, depth);
            if depth > 0 {
                lemma_stands_inside(*inside, after, outer, inner, depth + 1);
            } else if local == outer {
                lemma_stands_inside(*inside, after, outer, inner, 1);
                lemma_inside_is_held(*inside, outer, inner);
            } else {
                lemma_stands_inside(*inside, after, outer, inner, 0);
            }
        },
        Forest::Void { tag, name, local, next } => {
            lemma_names_of_tag(tag, name, local);
            lemma_first_token(TokenModel::Empty(tag), tokens_of(*next), more);
            lemma_stands_inside(*next, more, outer, inner, depth);
        },
        Forest::Text { text, next } => {
            lemma_first_token(TokenModel::Text(Some(text)), tokens_of(*next), more);
            lemma_stands_inside(*next, more, outer, inner, depth);
        },
        Forest::Data { data, next } => {
            lemma_first_token(TokenModel::CData(data), tokens_of(*next), more);
            lemma_stands_inside(*next, more, outer, inner, depth);
        },
    }
}

/// An element is found inside another wherever it stands there, and nowhere else.
pub proof fn lemma_found_inside(f: Forest, outer: Seq<u8>, inner: Seq<u8>)
    requires
        is_named(f),
    ensures
        stands_inside(tokens_of(f), outer, inner, 0) <==> holds_inside(f, outer, inner),
{
    let none = Seq::<TokenModel>::empty();
    lemma_stands_inside(f, none, outer, inner, 0);
    assert(tokens_of(f) + none =~= tokens_of(f));
}

// ── Texts ──────────────────────────────────────────────────────────

proof fn lemma_trim_start(pad: Seq<char>, s: Seq<char>)
    requires
        forall|i: int| 0 <= i < pad.len() ==> is_space(#[trigger] pad[i]),
        s.len() > 0,
        !is_space(s[0]),
    ensures
        trim_start(pad + s) == s,
    decreases pad.len(),
{
    if pad.len() == 0 {
        assert(pad + s =~= s);
    } else {
        assert(is_space(pad[0]));
        assert((pad + s)[0] == pad[0]);
        assert((pad + s).skip(1) =~= pad.skip(1) + s);
        lemma_trim_start(pad.skip(1), s);
    }
}

proof fn lemma_trim_end(s: Seq<char>, pad: Seq<char>)
    requires
        forall|i: int| 0 <= i < pad.len() ==> is_space(#[trigger] pad[i]),
        s.len() > 0,
        !is_space(s.last()),
    ensures
        trim_end(s + pad) == s,
    decreases pad.len(),
{
    if pad.len() == 0 {
        assert(s + pad =~= s);
    } else {
        assert(is_space(pad[pad.len() - 1]));
        assert((s + pad).last() == pad.last());
        assert((s + pad).drop_last() =~= s + pad.drop_last());
        lemma_trim_end(s, pad.drop_last());
    }
}

/// White space at both ends is cut off, however much of it there is.
pub proof fn lemma_trimmed(a: Seq<char>, s: Seq<char>, b: Seq<char>)
    requires
        forall|i: int| 0 <= i < a.len() ==> is_space(#[trigger] a[i]),
        forall|i: int| 0 <= i < b.len() ==> is_space(#[trigger] b[i]),
        s.len() > 0,
        !is_space(s[0]),
        !is_space(s.last()),
    ensures
        trim(a + s + b) == s,
{
    assert(a + s + b =~= a + (s + b));
    lemma_trim_start(a, s + b);
    lemma_trim_end(s, b);
    lemma_trim_end(a + s, b);
    assert((a + s).last() == s.last());
    lemma_trim_start(a, s);
}

/// Whether a token is no start tag with a local name, and XML.
pub open spec fn is_other(token: TokenModel, local: Seq<u8>) -> bool {
    match token {
        TokenModel::Bad => false,
        TokenModel::Start(tag) => exists|name: Seq<u8>, other: Seq<u8>|
            #![trigger is_tag(tag, name), is_qualified(name, other)]
            is_tag(tag, name) && is_qualified(name, other) && other != local,
        _ => true,
    }
}

proof fn lemma_other(token: TokenModel, local: Seq<u8>)
    requires
        is_other(token, local),
    ensures
        !starts(token, local),
        token !is Bad,
{
    if let TokenModel::Start(tag) = token {
        let (name, other) = choose|name: Seq<u8>, other: Seq<u8>|
            #![trigger is_tag(tag, name), is_qualified(name, other)]
            is_tag(tag, name) && is_qualified(name, other) && other != local;
        lemma_names_of_tag(tag, name, other);
    }
}

proof fn lemma_skips_others(front: Seq<TokenModel>, rest: Seq<TokenModel>, local: Seq<u8>)
    requires
        forall|i: int| 0 <= i < front.len() ==> is_other(#[trigger] front[i], local),
    ensures
        element_text(front + rest, local) == element_text(rest, local),
        element_inner(front + rest, local) == element_inner(rest, local),
    decreases front.len(),
{
    if front.len() == 0 {
        assert(front + rest =~= rest);
    } else {
        let more = front.skip(1);
        assert(is_other(front[0], local));
        lemma_other(front[0], local);
        assert((front + rest)[0] == front[0]);
        assert((front + rest).skip(1) =~= more + rest);
        assert forall|i: int| 0 <= i < more.len() implies is_other(#[trigger] more[i], local) by {
            assert(more[i] == front[i + 1]);
        }
        lemma_skips_others(more, rest, local);
    }
}

/// The text of an element is the one that its start tag is followed by, without the white
/// space around it, whatever prefix the element has, whatever its attributes are, and
/// whatever stands before and behind it; data in place of text counts in the same way.
pub proof fn lemma_element_text(
    front: Seq<TokenModel>,
    tag: Seq<u8>,
    name: Seq<u8>,
    local: Seq<u8>,
    a: Seq<char>,
    text: Seq<char>,
    b: Seq<char>,
    rest: Seq<TokenModel>,
)
    requires
        forall|i: int| 0 <= i < front.len() ==> is_other(#[trigger] front[i], local),
        is_tag(tag, name),
        is_qualified(name, local),
        forall|i: int| 0 <= i < a.len() ==> is_space(#[trigger] a[i]),
        forall|i: int| 0 <= i < b.len() ==> is_space(#[trigger] b[i]),
        text.len() > 0,
        !is_space(text[0]),
        !is_space(text.last()),
    ensures
        element_text(
            front + (seq![TokenModel::Start(tag), TokenModel::Text(Some(a + text + b))] + rest),
            local,
        ) == Some(text),
        element_text(
            front + (seq![TokenModel::Start(tag), TokenModel::CData(bytes_of(a + text + b))] + rest),
            local,
        ) == Some(text),
{
    lemma_names_of_tag(tag, name, local);
    lemma_trimmed(a, text, b);
    let s = a + text + b;
    encode_utf8_valid_utf8(s);
    encode_utf8_decode_utf8(s);
    let x = seq![TokenModel::Start(tag), TokenModel::Text(Some(s))] + rest;
    let y = seq![TokenModel::Start(tag), TokenModel::CData(bytes_of(s))] + rest;
    lemma_skips_others(front, x, local);
    lemma_skips_others(front, y, local);
    assert(x[0] == TokenModel::Start(tag) && x[1] == TokenModel::Text(Some(s)));
    assert(y[0] == TokenModel::Start(tag) && y[1] == TokenModel::CData(bytes_of(s)));
    assert(x[0] != TokenModel::Bad && y[0] != TokenModel::Bad);
}

/// Where no element has the name, there is no text.
pub proof fn lemma_no_element(tokens: Seq<TokenModel>, local: Seq<u8>)
    requires
        forall|i: int| 0 <= i < tokens.len() ==> is_other(#[trigger] tokens[i], local),
    ensures
        element_text(tokens, local) is None,
        element_inner(tokens, local) is None,
{
    let none = Seq::<TokenModel>::empty();
    lemma_skips_others(tokens, none, local);
    assert(tokens + none =~= tokens);
}

// ── Content ────────────────────────────────────────────────────────

/// A forest as it is written with the names of its tags and its texts alone.
pub open spec fn outline(f: Forest) -> Seq<u8>
    decreases f,
{
    match f {
        Forest::Nothing => Seq::empty(),
        Forest::Element { name, inside, next, .. } => bytes_of("<"@) + name + bytes_of(">"@)
            + outline(*inside) + bytes_of("</"@) + name + bytes_of(">"@) + outline(*next),
        Forest::Void { name, next, .. } => bytes_of("<"@) + name + bytes_of("/>"@) + outline(*next),
        Forest::Text { text, next } => bytes_of(text) + outline(*next),
        Forest::Data { data, next } => outline(*next),
    }
}

#[verifier::rlimit(30)]
proof fn lemma_content(f: Forest, more: Seq<TokenModel>, depth: nat, text: Seq<u8>)
    requires
        is_named(f),
        depth >= 1,
    ensures
        element_content(tokens_of(f) + more, depth, text) == element_content(
            more,
            depth,
            text + outline(f),
        ),
    decreases f,
{
    let all = tokens_of(f) + more;
    match f {
        Forest::Nothing => {
            assert(all =~= more);
            assert(text + outline(f) =~= text);
        },
        Forest::Element { tag, name, local, inside, next } => {
            lemma_names_of_tag(tag, name, local);
            lemma_element_tokens(f, more);
            let after = seq![TokenModel::End(name)] + (tokens_of(*next) + more);
            let opened = text + bytes_of("<"@) + name + bytes_of(">"@);
            lemma_content(*inside, after, depth + 1, opened);
            let closed = opened + outline(*inside) + bytes_of("</"@) + name + bytes_of(">"@);
            assert(element_content(after, depth + 1, opened + outline(*inside)) == element_content(
                after.skip(1),
                depth,
                closed,
            ));
            lemma_content(*next, more, depth, closed);
            assert(closed + outline(*next) =~= text + outline(f));
        },
        Forest::Void { tag, name, local, next } => {
            lemma_names_of_tag(tag, name, local);
            lemma_first_token(TokenModel::Empty(tag), tokens_of(*next), more);
            let written = text + bytes_of("<"@) + name + bytes_of("/>"@);
            lemma_content(*next, more, depth, written);
            assert(written + outline(*next) =~= text + outline(f));
        },
        Forest::Text { text: piece, next } => {
            lemma_first_token(TokenModel::Text(Some(piece)), tokens_of(*next), more);
            lemma_content(*next, more, depth, text + bytes_of(piece));
            assert(text + bytes_of(piece) + outline(*next) =~= text + outline(f));
        },
        Forest::Data { data, next } => {
            lemma_first_token(TokenModel::CData(data), tokens_of(*next), more);
            lemma_content(*next, more, depth, text);
        },
    }
}

/// The content of an element is all that stands between its start tag and its own end tag,
/// however deep that goes, with the tags inside.
pub proof fn lemma_element_content(
    front: Seq<TokenModel>,
    tag: Seq<u8>,
    name: Seq<u8>,
    local: Seq<u8>,
    inside: Forest,
    rest: Seq<TokenModel>,
    a: Seq<char>,
    text: Seq<char>,
    b: Seq<char>,
)
    requires
        forall|i: int| 0 <= i < front.len() ==> is_other(#[trigger] front[i], local),
        is_tag(tag, name),
        is_qualified(name, local),
        is_named(inside),
        outline(inside) == bytes_of(a + text + b),
        forall|i: int| 0 <= i < a.len() ==> is_space(#[trigger] a[i]),
        forall|i: int| 0 <= i < b.len() ==> is_space(#[trigger] b[i]),
        text.len() > 0,
        !is_space(text[0]),
        !is_space(text.last()),
    ensures
        element_inner(
            front + (seq![TokenModel::Start(tag)] + (tokens_of(inside) + (seq![
                TokenModel::End(name),
            ] + rest))),
            local,
        ) == Some(text),
{
    lemma_names_of_tag(tag, name, local);
    lemma_trimmed(a, text, b);
    let s = a + text + b;
    encode_utf8_valid_utf8(s);
    encode_utf8_decode_utf8(s);
    let after = seq![TokenModel::End(name)] + rest;
    let x = seq![TokenModel::Start(tag)] + (tokens_of(inside) + after);
    lemma_skips_others(front, x, local);
    assert(x[0] == TokenModel::Start(tag));
    assert(x.skip(1) =~= tokens_of(inside) + after);
    lemma_content(inside, after, 1, Seq::empty());
    assert(Seq::<u8>::empty() + outline(inside) =~= outline(inside));
    assert(after[0] == TokenModel::End(name));
    assert(after.len() > 0);
    assert(element_content(after, 1, outline(inside)).0 == outline(inside));
}

// ── Responses ──────────────────────────────────────────────────────

/// A forest without attributes as it is written, with its texts and its data escaped or as
/// they are.
pub open spec fn markup(f: Forest, escape: bool) -> Seq<u8>
    decreases f,
{
    match f {
        Forest::Nothing => Seq::empty(),
        Forest::Element { name, inside, next, .. } => bytes_of("<"@) + name + bytes_of(">"@)
            + markup(*inside, escape) + bytes_of("</"@) + name + bytes_of(">"@) + markup(
            *next,
            escape,
        ),
        Forest::Void { name, next, .. } => bytes_of("<"@) + name + bytes_of("/>"@) + markup(
            *next,
            escape,
        ),
        Forest::Text { text, next } => (if escape {
            xml_escaped(bytes_of(text))
        } else {
            bytes_of(text)
        }) + markup(*next, escape),
        Forest::Data { data, next } => (if escape {
            xml_escaped(data)
        } else {
            data
        }) + markup(*next, escape),
    }
}

/// What is known after some more tokens.
spec fn run(b: Blocks, tokens: Seq<TokenModel>, escape: bool) -> Blocks
    decreases tokens.len(),
{
    if tokens.len() == 0 {
        b
    } else {
        run(with_token(b, tokens[0], escape), tokens.skip(1), escape)
    }
}

proof fn lemma_run(a: Seq<TokenModel>, t: Seq<TokenModel>, escape: bool)
    ensures
        after_tokens(a + t, escape) == run(after_tokens(a, escape), t, escape),
    decreases t.len(),
{
    if t.len() == 0 {
        assert(a + t =~= a);
    } else {
        let next = a.push(t[0]);
        assert(next.drop_last() =~= a);
        lemma_run(next, t.skip(1), escape);
        assert(next + t.skip(1) =~= a + t);
    }
}

proof fn lemma_bare_tag(name: Seq<u8>, local: Seq<u8>, close: Seq<char>)
    requires
        is_tag(name, name),
        is_qualified(name, local),
    ensures
        tag_text(name, close) == bytes_of("<"@) + name + bytes_of(close),
{
    lemma_names_of_tag(name, name, local);
    let n = name.len() as int;
    assert forall|i: int| 0 <= i < n implies !is_gap(#[trigger] name[i]) by {
        assert(!is_white(name[i]));
    }
    lemma_name_length(name, n);
    assert(tag_attributes(name) =~= Seq::<AttributeModel>::empty());
    assert(tag_text(name, close) =~= bytes_of("<"@) + name + bytes_of(close));
}

#[verifier::rlimit(50)]
proof fn lemma_run_inside(f: Forest, more: Seq<TokenModel>, b: Blocks, escape: bool)
    requires
        is_named(f),
        is_bare(f),
        b.inside,
        b.depth >= 1,
    ensures
        run(b, tokens_of(f) + more, escape) == run(
            Blocks { text: b.text + markup(f, escape), ..b },
            more,
            escape,
        ),
    decreases f,
{
    let all = tokens_of(f) + more;
    match f {
        Forest::Nothing => {
            assert(all =~= more);
            assert(b.text + markup(f, escape) =~= b.text);
        },
        Forest::Element { tag, name, local, inside, next } => {
            lemma_bare_tag(name, local, ">"@);
            lemma_element_tokens(f, more);
            let after = seq![TokenModel::End(name)] + (tokens_of(*next) + more);
            let opened = Blocks {
                depth: b.depth + 1,
                text: b.text + (bytes_of("<"@) + name + bytes_of(">"@)),
                ..b
            };
            assert(with_token(b, TokenModel::Start(tag), escape) == opened);
            lemma_run_inside(*inside, after, opened, escape);
            let filled = Blocks { text: opened.text + markup(*inside, escape), ..opened };
            let closed = Blocks {
                depth: b.depth,
                text: filled.text + bytes_of("</"@) + name + bytes_of(">"@),
                ..b
            };
            assert(with_token(filled, TokenModel::End(name), escape) == closed);
            assert(run(filled, after, escape) == run(closed, after.skip(1), escape));
            lemma_run_inside(*next, more, closed, escape);
            assert(closed.text + markup(*next, escape) =~= b.text + markup(f, escape));
        },
        Forest::Void { tag, name, local, next } => {
            lemma_bare_tag(name, local, "/>"@);
            lemma_first_token(TokenModel::Empty(tag), tokens_of(*next), more);
            let c = with_token(b, TokenModel::Empty(tag), escape);
            lemma_run_inside(*next, more, c, escape);
            assert(c.text + markup(*next, escape) =~= b.text + markup(f, escape));
        },
        Forest::Text { text, next } => {
            lemma_first_token(TokenModel::Text(Some(text)), tokens_of(*next), more);
            let c = with_token(b, TokenModel::Text(Some(text)), escape);
            lemma_run_inside(*next, more, c, escape);
            assert(c.text + markup(*next, escape) =~= b.text + markup(f, escape));
        },
        Forest::Data { data, next } => {
            lemma_first_token(TokenModel::CData(data), tokens_of(*next), more);
            let c = with_token(b, TokenModel::CData(data), escape);
            lemma_run_inside(*next, more, c, escape);
            assert(c.text + markup(*next, escape) =~= b.text + markup(f, escape));
        },
    }
}

/// A response: what stands before it, its tag, and what stands in it.
pub struct Response {
    pub front: Seq<TokenModel>,
    pub tag: Seq<u8>,
    pub name: Seq<u8>,
    pub inside: Forest,
}

/// Whether a response is one: before it no other starts, and it is an element with the local
/// name `response`.
pub open spec fn is_response(r: Response) -> bool {
    &&& forall|i: int| 0 <= i < r.front.len() ==> is_other(#[trigger] r.front[i], bytes_of("response"@))
    &&& is_tag(r.tag, r.name)
    &&& is_qualified(r.name, bytes_of("response"@))
    &&& is_named(r.inside)
    &&& is_bare(r.inside)
}

/// The tokens of responses and of what stands behind them.
pub open spec fn tokens_of_all(responses: Seq<Response>, tail: Seq<TokenModel>) -> Seq<TokenModel>
    decreases responses.len(),
{
    if responses.len() == 0 {
        tail
    } else {
        let r = responses[0];
        r.front + (seq![TokenModel::Start(r.tag)] + (tokens_of(r.inside) + (seq![
            TokenModel::End(r.name),
        ] + tokens_of_all(responses.skip(1), tail))))
    }
}

proof fn lemma_run_outside(front: Seq<TokenModel>, more: Seq<TokenModel>, b: Blocks, escape: bool)
    requires
        forall|i: int|
            0 <= i < front.len() ==> is_other(#[trigger] front[i], bytes_of("response"@)),
        !b.inside,
    ensures
        run(b, front + more, escape) == run(b, more, escape),
    decreases front.len(),
{
    if front.len() == 0 {
        assert(front + more =~= more);
    } else {
        let rest = front.skip(1);
        assert(is_other(front[0], bytes_of("response"@)));
        lemma_other(front[0], bytes_of("response"@));
        assert((front + more)[0] == front[0]);
        assert((front + more).skip(1) =~= rest + more);
        assert forall|i: int| 0 <= i < rest.len() implies is_other(
            #[trigger] rest[i],
            bytes_of("response"@),
        ) by {
            assert(rest[i] == front[i + 1]);
        }
        lemma_run_outside(rest, more, b, escape);
        assert(with_token(b, front[0], escape) == b);
    }
}

#[verifier::rlimit(50)]
proof fn lemma_run_all(
    responses: Seq<Response>,
    tail: Seq<TokenModel>,
    texts: Seq<Seq<char>>,
    b: Blocks,
    escape: bool,
)
    requires
        forall|i: int| 0 <= i < responses.len() ==> is_response(#[trigger] responses[i]),
        forall|i: int|
            0 <= i < tail.len() ==> is_other(#[trigger] tail[i], bytes_of("response"@)),
        responses.len() == texts.len(),
        forall|i: int|
            0 <= i < responses.len() ==> bytes_of(#[trigger] texts[i]) == bytes_of("<response>"@)
                + markup(responses[i].inside, escape) + bytes_of("</response>"@),
        !b.inside,
    ensures
        run(b, tokens_of_all(responses, tail), escape).done == b.done + texts,
    decreases responses.len(),
{
    let none = Seq::<TokenModel>::empty();
    if responses.len() == 0 {
        lemma_run_outside(tail, none, b, escape);
        assert(tail + none =~= tail);
        assert(b.done + texts =~= b.done);
    } else {
        let r = responses[0];
        assert(is_response(r));
        let rest = responses.skip(1);
        let later = tokens_of_all(rest, tail);
        let after = seq![TokenModel::End(r.name)] + later;
        let inside = tokens_of(r.inside) + after;
        let whole = seq![TokenModel::Start(r.tag)] + inside;
        lemma_run_outside(r.front, whole, b, escape);
        lemma_names_of_tag(r.tag, r.name, bytes_of("response"@));
        assert(whole[0] == TokenModel::Start(r.tag));
        assert(whole.skip(1) =~= inside);
        let opened = with_token(b, TokenModel::Start(r.tag), escape);
        assert(opened == Blocks { inside: true, depth: 1, text: bytes_of("<response>"@), ..b });
        lemma_run_inside(r.inside, after, opened, escape);
        let full = Blocks { text: opened.text + markup(r.inside, escape), ..opened };
        assert(after[0] == TokenModel::End(r.name));
        assert(after.skip(1) =~= later);
        let closed = with_token(full, TokenModel::End(r.name), escape);
        assert(bytes_of(texts[0]) == full.text + bytes_of("</response>"@));
        encode_utf8_valid_utf8(texts[0]);
        encode_utf8_decode_utf8(texts[0]);
        assert(closed.done == b.done.push(texts[0]));
        assert(!closed.inside);
        assert forall|i: int| 0 <= i < rest.len() implies is_response(#[trigger] rest[i]) by {
            assert(rest[i] == responses[i + 1]);
        }
        let others = texts.skip(1);
        assert forall|i: int| 0 <= i < rest.len() implies bytes_of(#[trigger] others[i])
            == bytes_of("<response>"@) + markup(rest[i].inside, escape) + bytes_of(
            "</response>"@,
        ) by {
            assert(others[i] == texts[i + 1]);
            assert(rest[i] == responses[i + 1]);
        }
        lemma_run_all(rest, tail, others, closed, escape);
        assert(b.done.push(texts[0]) + others =~= b.done + texts);
        assert(run(full, after, escape) == run(closed, later, escape));
        assert(run(b, whole, escape) == run(opened, inside, escape));
    }
}

proof fn lemma_all_good(tokens: Seq<TokenModel>)
    requires
        forall|i: int| 0 <= i < tokens.len() ==> #[trigger] tokens[i] !is Bad,
    ensures
        good_tokens(tokens) == tokens,
    decreases tokens.len(),
{
    if tokens.len() > 0 {
        let rest = tokens.skip(1);
        assert(tokens[0] !is Bad);
        assert forall|i: int| 0 <= i < rest.len() implies #[trigger] rest[i] !is Bad by {
            assert(rest[i] == tokens[i + 1]);
        }
        lemma_all_good(rest);
        assert(seq![tokens[0]] + rest =~= tokens);
    }
}

proof fn lemma_good_forest(f: Forest)
    ensures
        forall|i: int| 0 <= i < tokens_of(f).len() ==> #[trigger] tokens_of(f)[i] !is Bad,
    decreases f,
{
    match f {
        Forest::Nothing => {},
        Forest::Element { inside, next, .. } => {
            lemma_good_forest(*inside);
            lemma_good_forest(*next);
        },
        Forest::Void { next, .. } => lemma_good_forest(*next),
        Forest::Text { text, next } => lemma_good_forest(*next),
        Forest::Data { data, next } => lemma_good_forest(*next),
    }
}

proof fn lemma_good_responses(responses: Seq<Response>, tail: Seq<TokenModel>)
    requires
        forall|i: int| 0 <= i < responses.len() ==> is_response(#[trigger] responses[i]),
        forall|i: int|
            0 <= i < tail.len() ==> is_other(#[trigger] tail[i], bytes_of("response"@)),
    ensures
        forall|i: int|
            0 <= i < tokens_of_all(responses, tail).len() ==> #[trigger] tokens_of_all(
                responses,
                tail,
            )[i] !is Bad,
    decreases responses.len(),
{
    if responses.len() > 0 {
        let r = responses[0];
        assert(is_response(r));
        let rest = responses.skip(1);
        assert forall|i: int| 0 <= i < rest.len() implies is_response(#[trigger] rest[i]) by {
            assert(rest[i] == responses[i + 1]);
        }
        lemma_good_responses(rest, tail);
        lemma_good_forest(r.inside);
        assert forall|i: int| 0 <= i < r.front.len() implies #[trigger] r.front[i] !is Bad by {
            assert(is_other(r.front[i], bytes_of("response"@)));
        }
    } else {
        assert forall|i: int| 0 <= i < tail.len() implies #[trigger] tail[i] !is Bad by {
            assert(is_other(tail[i], bytes_of("response"@)));
        }
    }
}

/// A document with responses comes apart into them: one block for each, in their order, with
/// the tags, the texts and the data that stand in it, however deep they go.
pub proof fn lemma_response_blocks(
    responses: Seq<Response>,
    tail: Seq<TokenModel>,
    texts: Seq<Seq<char>>,
    escape: bool,
)
    requires
        forall|i: int| 0 <= i < responses.len() ==> is_response(#[trigger] responses[i]),
        forall|i: int|
            0 <= i < tail.len() ==> is_other(#[trigger] tail[i], bytes_of("response"@)),
        responses.len() == texts.len(),
        forall|i: int|
            0 <= i < responses.len() ==> bytes_of(#[trigger] texts[i]) == bytes_of("<response>"@)
                + markup(responses[i].inside, escape) + bytes_of("</response>"@),
    ensures
        response_blocks(tokens_of_all(responses, tail), escape) == texts,
{
    let tokens = tokens_of_all(responses, tail);
    let none = Seq::<TokenModel>::empty();
    lemma_good_responses(responses, tail);
    lemma_all_good(tokens);
    lemma_run(none, tokens, escape);
    assert(none + tokens =~= tokens);
    assert(after_tokens(none, escape) == no_blocks());
    lemma_run_all(responses, tail, texts, no_blocks(), escape);
    assert(no_blocks().done + texts =~= texts);
}

/// Content is escaped byte by byte: angle brackets, quotes and ampersands are written as the
/// entities that stand for them, and every other byte stands as it is.
pub proof fn lemma_escaped_content(bytes: Seq<u8>, b: u8)
    ensures
        xml_escaped(bytes.push(b)) == xml_escaped(bytes) + xml_escaped(seq![b]),
        xml_escaped(seq![60u8]) == bytes_of("&lt;"@),
        xml_escaped(seq![62u8]) == bytes_of("&gt;"@),
        xml_escaped(seq![38u8]) == bytes_of("&amp;"@),
        xml_escaped(seq![39u8]) == bytes_of("&apos;"@),
        xml_escaped(seq![34u8]) == bytes_of("&quot;"@),
        b != 60 && b != 62 && b != 38 && b != 39 && b != 34 ==> xml_escaped(seq![b]) == seq![b],
{
    assert(bytes.push(b).drop_last() =~= bytes);
    lemma_escaped_byte(b);
    lemma_escaped_byte(60);
    lemma_escaped_byte(62);
    lemma_escaped_byte(38);
    lemma_escaped_byte(39);
    lemma_escaped_byte(34);
}

proof fn lemma_escaped_byte(b: u8)
    ensures
        xml_escaped(seq![b]) == crate::xml::xml_escaped_byte(b),
{
    assert(seq![b].drop_last() =~= Seq::<u8>::empty());
    assert(xml_escaped(Seq::<u8>::empty()) =~= Seq::<u8>::empty());
    assert(xml_escaped(seq![b]) =~= crate::xml::xml_escaped_byte(b));
}

/// An attribute is written behind a blank, with its value in quotes, one behind the other.
pub proof fn lemma_attributes_written(a: Seq<AttributeModel>, key: Seq<u8>, value: Seq<u8>)
    ensures
        attributes_text(a.push(Some((key, value)))) == attributes_text(a) + bytes_of(" "@) + key
            + bytes_of("=\""@) + value + bytes_of("\""@),
        attributes_text(a.push(None)) == attributes_text(a),
{
    assert(a.push(Some((key, value))).drop_last() =~= a);
    assert(a.push(None).drop_last() =~= a);
}

} // verus!
