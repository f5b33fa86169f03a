//! What the tokenizer makes of printed text: exactly the tokens that the
//! printed forest is read from.

use vstd::prelude::*;
use crate::error::Failure;
use crate::lexer::{
    has_marker_at, lemma_scan_token_bounds, lemma_skip_whitespace_bounds, lex_from,
    next_token_at, prepend_tokens, scan_string, scan_token, skip_whitespace, spec_marker,
    word_end,
};
use crate::printer::{
    escape_char, escape_from, print_attribute, print_attributes, print_children, print_forest_from,
    print_head, print_node, quoted, separator,
};
use crate::token_stream::{
    forest_tokens, has_at, head_token, items_tokens, lemma_has_at_first, lemma_has_at_split,
    node_tokens, remaining,
};
use crate::swift_dump_ast::{
    attribute_token, attribute_well_formed, forest_well_formed, node_well_formed, SpecAttribute,
    SpecNode,
};
use crate::text::{spec_is_whitespace, spec_is_word, spec_is_word_char};
use crate::token::SpecToken;

verus! {

/// The text of what follows the head of a node: the attributes from
/// position `ka` on, then the children from position `kc` on, each with its
/// separator in front, then the closing parenthesis.
pub open spec fn items_text(
    attributes: Seq<SpecAttribute>,
    ka: int,
    children: Seq<SpecNode>,
    kc: int,
    depth: nat,
) -> Seq<char>
    decreases remaining(attributes, ka) + remaining(children, kc),
{
    if 0 <= ka < attributes.len() {
        separator(depth) + (print_attribute(attributes[ka]) + items_text(
            attributes,
            ka + 1,
            children,
            kc,
            depth,
        ))
    } else if 0 <= kc < children.len() {
        separator(depth) + (print_node(children[kc], depth) + items_text(
            attributes,
            ka,
            children,
            kc + 1,
            depth,
        ))
    } else {
        seq![')']
    }
}

proof fn lemma_items_text_is_print(
    attributes: Seq<SpecAttribute>,
    ka: int,
    children: Seq<SpecNode>,
    kc: int,
    depth: nat,
)
    requires
        0 <= ka <= attributes.len(),
        0 <= kc <= children.len(),
    ensures
        items_text(attributes, ka, children, kc, depth) == print_attributes(attributes, ka, depth)
            + print_children(children, kc, depth) + seq![')'],
    decreases remaining(attributes, ka) + remaining(children, kc),
{
    let whole = print_attributes(attributes, ka, depth) + print_children(children, kc, depth)
        + seq![')'];
    if ka < attributes.len() {
        lemma_items_text_is_print(attributes, ka + 1, children, kc, depth);
        assert(items_text(attributes, ka, children, kc, depth) =~= whole);
    } else if kc < children.len() {
        lemma_items_text_is_print(attributes, ka, children, kc + 1, depth);
        assert(items_text(attributes, ka, children, kc, depth) =~= whole);
    } else {
        assert(items_text(attributes, ka, children, kc, depth) =~= whole);
    }
}

proof fn lemma_print_node_layout(node: SpecNode, depth: nat)
    ensures
        print_node(node, depth) == seq!['('] + (print_head(node) + items_text(
            node.attributes,
            0,
            node.children,
            0,
            depth + 1,
        )),
        print_node(node, depth).len() >= 2,
        print_node(node, depth)[0] == '(',
{
    lemma_items_text_is_print(node.attributes, 0, node.children, 0, depth + 1);
    lemma_items_text_first(node.attributes, 0, node.children, 0, depth + 1);
    let laid_out = seq!['('] + (print_head(node) + items_text(
        node.attributes,
        0,
        node.children,
        0,
        depth + 1,
    ));
    assert(print_node(node, depth) =~= laid_out);
}

proof fn lemma_items_text_first(
    attributes: Seq<SpecAttribute>,
    ka: int,
    children: Seq<SpecNode>,
    kc: int,
    depth: nat,
)
    ensures
        items_text(attributes, ka, children, kc, depth).len() >= 1,
        items_text(attributes, ka, children, kc, depth)[0] == '\n' || items_text(
            attributes,
            ka,
            children,
            kc,
            depth,
        )[0] == ')',
{
    let sep = separator(depth);
    assert(sep.len() >= 1 && sep[0] == '\n');
}

proof fn lemma_separator_is_blank(depth: nat)
    ensures
        separator(depth).len() >= 1,
        forall|k: int| 0 <= k < separator(depth).len() ==> spec_is_whitespace(
            #[trigger] separator(depth)[k],
        ),
{
}

/// A run of blanks is skipped up to the first character that is none.
proof fn lemma_skip_blanks(text: Seq<char>, i: int, j: int)
    requires
        0 <= i <= j <= text.len(),
        forall|k: int| i <= k < j ==> spec_is_whitespace(#[trigger] text[k]),
        j < text.len() ==> !spec_is_whitespace(text[j]),
    ensures
        skip_whitespace(text, i) == j,
    decreases j - i,
{
    if i < j {
        assert(spec_is_whitespace(text[i]));
        lemma_skip_blanks(text, i + 1, j);
    }
}

/// A run of word characters ends at the first character that is none.
proof fn lemma_word_run(text: Seq<char>, i: int, j: int)
    requires
        0 <= i <= j <= text.len(),
        forall|k: int| i <= k < j ==> spec_is_word_char(#[trigger] text[k]),
        j < text.len() ==> !spec_is_word_char(text[j]),
    ensures
        word_end(text, i) == j,
    decreases j - i,
{
    if i < j {
        assert(spec_is_word_char(text[i]));
        lemma_word_run(text, i + 1, j);
    }
}

/// Blanks in front of a token do not change what is read.
proof fn lemma_lex_skip(text: Seq<char>, j: int, p: int)
    requires
        0 <= j <= p <= text.len(),
        skip_whitespace(text, j) == p,
    ensures
        lex_from(text, j) == lex_from(text, p),
{
    lemma_skip_whitespace_bounds(text, j);
    if p < text.len() {
        assert(skip_whitespace(text, p) == p);
        lemma_scan_token_bounds(text, p);
    } else {
        assert(skip_whitespace(text, p) == p);
    }
    assert(next_token_at(text, j) == next_token_at(text, p));
}

/// Reading one token and then the rest is reading from the start.
proof fn lemma_lex_step(text: Seq<char>, p: int, token: SpecToken, next: int)
    requires
        0 <= p < next <= text.len(),
        !spec_is_whitespace(text[p]),
        scan_token(text, p) == Ok::<(SpecToken, int), Failure>((token, next)),
    ensures
        lex_from(text, p) == prepend_tokens(seq![token], lex_from(text, next)),
{
    assert(skip_whitespace(text, p) == p);
}

proof fn lemma_prepend_twice(
    a: Seq<SpecToken>,
    b: Seq<SpecToken>,
    rest: Result<Seq<SpecToken>, Failure>,
)
    ensures
        prepend_tokens(a, prepend_tokens(b, rest)) == prepend_tokens(a + b, rest),
{
    if let Ok(tokens) = rest {
        assert(a + (b + tokens) =~= (a + b) + tokens);
    }
}

/// The inside of a printed string is read back as the text that was
/// printed.
pub proof fn lemma_scan_escaped(text: Seq<char>, open: int, i: int, content: Seq<char>, k: int)
    requires
        0 <= k <= content.len(),
        has_at(text, i, escape_from(content, k) + seq!['"']),
    ensures
        scan_string(text, open, i) == Ok::<(Seq<char>, int), Failure>(
            (content.subrange(k, content.len() as int), i + escape_from(content, k).len() + 1),
        ),
    decreases content.len() - k,
{
    let piece = escape_from(content, k) + seq!['"'];
    let tail = content.subrange(k, content.len() as int);
    if k >= content.len() {
        lemma_has_at_first(text, i, piece);
        assert(tail =~= Seq::<char>::empty());
    } else {
        let c = content[k];
        let rest = escape_from(content, k + 1) + seq!['"'];
        assert(piece =~= escape_char(c) + rest);
        lemma_has_at_split(text, i, escape_char(c), rest);
        lemma_has_at_first(text, i, escape_char(c));
        assert(seq![c] + content.subrange(k + 1, content.len() as int) =~= tail);
        if c == '"' || c == '\\' {
            assert(text[i + 1] == escape_char(c)[1]);
            lemma_scan_escaped(text, open, i + 2, content, k + 1);
        } else {
            lemma_scan_escaped(text, open, i + 1, content, k + 1);
        }
    }
}

proof fn lemma_marker_chars(text: Seq<char>, i: int)
    requires
        has_marker_at(text, i),
    ensures
        forall|j: int| 0 <= j < 14 ==> text[i + j] == #[trigger] spec_marker()[j],
{
    let here = text.subrange(i, i + 14);
    assert forall|j: int| 0 <= j < 14 implies text[i + j] == #[trigger] spec_marker()[j] by {
        assert(here[j] == text[i + j]);
    }
}

/// A printed quoted string is read back as one string token.
proof fn lemma_scan_quoted_token(text: Seq<char>, p: int, content: Seq<char>)
    requires
        has_at(text, p, quoted(content)),
    ensures
        scan_token(text, p) == Ok::<(SpecToken, int), Failure>(
            (SpecToken::QuotedString(content), p + quoted(content).len()),
        ),
        !spec_is_whitespace(text[p]),
        quoted(content).len() >= 2,
{
    let inside = escape_from(content, 0) + seq!['"'];
    assert(quoted(content) =~= seq!['"'] + inside);
    lemma_has_at_split(text, p, seq!['"'], inside);
    lemma_has_at_first(text, p, seq!['"']);
    lemma_scan_escaped(text, p, p + 1, content, 0);
    assert(content.subrange(0, content.len() as int) =~= content);
}

/// A printed word is read back as one identifier token, provided that a
/// line break, a closing parenthesis or the end of the text follows it.
proof fn lemma_scan_word_token(text: Seq<char>, p: int, word: Seq<char>)
    requires
        spec_is_word(word),
        has_at(text, p, word),
        p + word.len() < text.len() ==> text[p + word.len()] == '\n' || text[p + word.len()]
            == ')',
    ensures
        scan_token(text, p) == Ok::<(SpecToken, int), Failure>(
            (SpecToken::Identifier(word), p + word.len()),
        ),
        !spec_is_whitespace(text[p]),
{
    let end = p + word.len();
    assert forall|k: int| p <= k < end implies spec_is_word_char(#[trigger] text[k]) by {
        assert(text[p + (k - p)] == word[k - p]);
    }
    assert(text[p] == word[0]) by {
        lemma_has_at_first(text, p, word);
    }
    lemma_word_run(text, p, end);
    assert(text.subrange(p, end) =~= word) by {
        assert forall|k: int| 0 <= k < word.len() implies text.subrange(p, end)[k] == word[k] by {
            assert(text[p + k] == word[k]);
        }
    }
    if has_marker_at(text, p) {
        lemma_marker_chars(text, p);
        let m = spec_marker();
        assert(m[8] == ' ');
        if word.len() > 8 {
            assert(text[p + 8] == word[8]);
            assert(text[p + 8] == m[8]);
            assert(false);
        } else {
            let n = word.len() as int;
            assert(text[p + n] == m[n]);
            assert(m[1] == 'r' && m[2] == 'i' && m[3] == 'g' && m[4] == 'i' && m[5] == 'n'
                && m[6] == 'a' && m[7] == 'l' && m[8] == ' ');
            assert(false);
        }
    }
}

/// A printed property is read back as one `key=value` token.
proof fn lemma_scan_property_token(text: Seq<char>, p: int, key: Seq<char>, value: Seq<char>)
    requires
        spec_is_word(key),
        has_at(text, p, key + seq!['='] + quoted(value)),
    ensures
        scan_token(text, p) == Ok::<(SpecToken, int), Failure>(
            (
                SpecToken::KeyValueFragment(key, value),
                p + (key + seq!['='] + quoted(value)).len(),
            ),
        ),
        !spec_is_whitespace(text[p]),
{
    let front = key + seq!['='];
    let end = p + key.len();
    lemma_has_at_split(text, p, front, quoted(value));
    lemma_has_at_split(text, p, key, seq!['=']);
    lemma_has_at_first(text, end, seq!['=']);
    assert forall|k: int| p <= k < end implies spec_is_word_char(#[trigger] text[k]) by {
        assert(text[p + (k - p)] == key[k - p]);
    }
    assert(text[p] == key[0]) by {
        lemma_has_at_first(text, p, key);
    }
    lemma_word_run(text, p, end);
    assert(text.subrange(p, end) =~= key) by {
        assert forall|k: int| 0 <= k < key.len() implies text.subrange(p, end)[k] == key[k] by {
            assert(text[p + k] == key[k]);
        }
    }
    let inside = escape_from(value, 0) + seq!['"'];
    assert(quoted(value) =~= seq!['"'] + inside);
    lemma_has_at_split(text, end + 1, seq!['"'], inside);
    lemma_has_at_first(text, end + 1, seq!['"']);
    lemma_scan_escaped(text, end + 1, end + 2, value, 0);
    assert(value.subrange(0, value.len() as int) =~= value);
    if has_marker_at(text, p) {
        lemma_marker_chars(text, p);
        let m = spec_marker();
        assert(m[8] == ' ');
        if key.len() > 8 {
            assert(text[p + 8] == key[8]);
            assert(text[p + 8] == m[8]);
            assert(false);
        } else {
            let n = key.len() as int;
            assert(text[p + n] == m[n]);
            assert(m[1] == 'r' && m[2] == 'i' && m[3] == 'g' && m[4] == 'i' && m[5] == 'n'
                && m[6] == 'a' && m[7] == 'l' && m[8] == ' ');
            assert(false);
        }
    }
}

/// The printed marker phrase is read back as the marker token.
proof fn lemma_scan_marker_token(text: Seq<char>, p: int)
    requires
        has_at(text, p, spec_marker()),
    ensures
        scan_token(text, p) == Ok::<(SpecToken, int), Failure>(
            (SpecToken::ProcessedMarker, p + 14),
        ),
        !spec_is_whitespace(text[p]),
{
    let m = spec_marker();
    assert(text.subrange(p, p + 14) =~= m) by {
        assert forall|k: int| 0 <= k < 14 implies text.subrange(p, p + 14)[k] == m[k] by {
            assert(text[p + k] == m[k]);
        }
    }
    assert(text[p + 0] == m[0]);
}

/// A printed attribute is read back as its token, provided that a line
/// break, a closing parenthesis or the end of the text follows it.
proof fn lemma_scan_attribute(text: Seq<char>, p: int, attribute: SpecAttribute)
    requires
        attribute_well_formed(attribute),
        has_at(text, p, print_attribute(attribute)),
        p + print_attribute(attribute).len() < text.len() ==> text[p + print_attribute(
            attribute,
        ).len()] == '\n' || text[p + print_attribute(attribute).len()] == ')',
    ensures
        scan_token(text, p) == Ok::<(SpecToken, int), Failure>(
            (attribute_token(attribute), p + print_attribute(attribute).len()),
        ),
        !spec_is_whitespace(text[p]),
        print_attribute(attribute).len() >= 1,
{
    match attribute {
        SpecAttribute::Literal(content) => {
            lemma_scan_quoted_token(text, p, content);
        },
        SpecAttribute::Property { key, value } => {
            lemma_scan_property_token(text, p, key, value);
        },
        SpecAttribute::Flag(name) => {
            lemma_scan_word_token(text, p, name);
        },
    }
}

proof fn lemma_lex_items(
    text: Seq<char>,
    j: int,
    attributes: Seq<SpecAttribute>,
    ka: int,
    children: Seq<SpecNode>,
    kc: int,
    depth: nat,
)
    requires
        0 <= ka <= attributes.len(),
        0 <= kc <= children.len(),
        forall|i: int|
            0 <= i < attributes.len() ==> attribute_well_formed(#[trigger] attributes[i]),
        forall|i: int| 0 <= i < children.len() ==> node_well_formed(#[trigger] children[i]),
        has_at(text, j, items_text(attributes, ka, children, kc, depth)),
    ensures
        lex_from(text, j) == prepend_tokens(
            items_tokens(attributes, ka, children, kc),
            lex_from(text, j + items_text(attributes, ka, children, kc, depth).len()),
        ),
    decreases children, remaining(attributes, ka) + remaining(children, kc),
{
    let piece = items_text(attributes, ka, children, kc, depth);
    let end = j + piece.len();
    let sep = separator(depth);
    lemma_separator_is_blank(depth);
    if ka < attributes.len() {
        let attribute = attributes[ka];
        let shown = print_attribute(attribute);
        let rest = items_text(attributes, ka + 1, children, kc, depth);
        let p = j + sep.len();
        lemma_has_at_split(text, j, sep, shown + rest);
        lemma_has_at_split(text, p, shown, rest);
        lemma_items_text_first(attributes, ka + 1, children, kc, depth);
        lemma_has_at_first(text, p + shown.len(), rest);
        lemma_scan_attribute(text, p, attribute);
        assert forall|k: int| j <= k < p implies spec_is_whitespace(#[trigger] text[k]) by {
            assert(text[j + (k - j)] == sep[k - j]);
        }
        lemma_skip_blanks(text, j, p);
        lemma_lex_skip(text, j, p);
        lemma_lex_step(text, p, attribute_token(attribute), p + shown.len());
        lemma_lex_items(text, p + shown.len(), attributes, ka + 1, children, kc, depth);
        lemma_prepend_twice(
            seq![attribute_token(attribute)],
            items_tokens(attributes, ka + 1, children, kc),
            lex_from(text, end),
        );
    } else if kc < children.len() {
        let child = children[kc];
        let shown = print_node(child, depth);
        let rest = items_text(attributes, ka, children, kc + 1, depth);
        let p = j + sep.len();
        lemma_has_at_split(text, j, sep, shown + rest);
        lemma_has_at_split(text, p, shown, rest);
        lemma_print_node_layout(child, depth);
        lemma_has_at_first(text, p, shown);
        assert forall|k: int| j <= k < p implies spec_is_whitespace(#[trigger] text[k]) by {
            assert(text[j + (k - j)] == sep[k - j]);
        }
        lemma_skip_blanks(text, j, p);
        lemma_lex_skip(text, j, p);
        lemma_lex_node(text, p, child, depth);
        lemma_lex_items(text, p + shown.len(), attributes, ka, children, kc + 1, depth);
        lemma_prepend_twice(
            node_tokens(child),
            items_tokens(attributes, ka, children, kc + 1),
            lex_from(text, end),
        );
    } else {
        lemma_has_at_first(text, j, piece);
        lemma_lex_step(text, j, SpecToken::Close, j + 1);
    }
}

/// The tokenizer reads the text of a well-formed node back into the tokens
/// of that node, wherever in a text it stands.
pub proof fn lemma_lex_node(text: Seq<char>, p: int, node: SpecNode, depth: nat)
    requires
        node_well_formed(node),
        has_at(text, p, print_node(node, depth)),
    ensures
        lex_from(text, p) == prepend_tokens(
            node_tokens(node),
            lex_from(text, p + print_node(node, depth).len()),
        ),
    decreases node, 0nat,
{
    let head = print_head(node);
    let items = items_text(node.attributes, 0, node.children, 0, depth + 1);
    let end = p + print_node(node, depth).len();
    lemma_print_node_layout(node, depth);
    lemma_has_at_split(text, p, seq!['('], head + items);
    lemma_has_at_split(text, p + 1, head, items);
    lemma_has_at_first(text, p, seq!['(']);
    lemma_items_text_first(node.attributes, 0, node.children, 0, depth + 1);
    lemma_has_at_first(text, p + 1 + head.len(), items);
    lemma_lex_step(text, p, SpecToken::Open, p + 1);
    if node.is_original {
        lemma_scan_marker_token(text, p + 1);
    } else {
        lemma_scan_word_token(text, p + 1, node.tag);
    }
    lemma_lex_step(text, p + 1, head_token(node), p + 1 + head.len());
    lemma_lex_items(text, p + 1 + head.len(), node.attributes, 0, node.children, 0, depth + 1);
    let tokens = items_tokens(node.attributes, 0, node.children, 0);
    lemma_prepend_twice(seq![head_token(node)], tokens, lex_from(text, end));
    lemma_prepend_twice(
        seq![SpecToken::Open],
        seq![head_token(node)] + tokens,
        lex_from(text, end),
    );
    assert(seq![SpecToken::Open] + (seq![head_token(node)] + tokens) =~= node_tokens(node));
}

/// The tokenizer reads the text of a well-formed forest back into the
/// tokens of that forest.
pub proof fn lemma_lex_forest(text: Seq<char>, j: int, forest: Seq<SpecNode>, k: int)
    requires
        0 <= k <= forest.len(),
        forest_well_formed(forest),
        has_at(text, j, print_forest_from(forest, k)),
        j + print_forest_from(forest, k).len() == text.len(),
    ensures
        lex_from(text, j) == Ok::<Seq<SpecToken>, Failure>(forest_tokens(forest, k)),
    decreases forest.len() - k,
{
    if k < forest.len() {
        let node = forest[k];
        let shown = print_node(node, 0);
        let rest = print_forest_from(forest, k + 1);
        let q = j + shown.len();
        assert(print_forest_from(forest, k) =~= shown + (seq!['\n'] + rest));
        lemma_has_at_split(text, j, shown, seq!['\n'] + rest);
        lemma_has_at_split(text, q, seq!['\n'], rest);
        lemma_has_at_first(text, q, seq!['\n']);
        lemma_lex_node(text, j, node, 0);
        if k + 1 < forest.len() {
            lemma_print_node_layout(forest[k + 1], 0);
            lemma_has_at_first(text, q + 1, rest);
        }
        assert forall|i: int| q <= i < q + 1 implies spec_is_whitespace(#[trigger] text[i]) by {}
        lemma_skip_blanks(text, q, q + 1);
        lemma_lex_skip(text, q, q + 1);
        lemma_lex_forest(text, q + 1, forest, k + 1);
    } else {
        assert(skip_whitespace(text, j) == j);
    }
}

} // verus!
