//! The category table: the fixed, ordered list of semantic categories, each
//! bound to a CSS class, and the class attributes built from it.
//!
//! The library holds one table, of 48 categories. The class of a category
//! is its name in full behind the prefix `ts-`, with a hyphen for each dot:
//! `function.builtin` has the class `ts-function-builtin`. It holds no table
//! of abbreviated classes, and no category `glimmer` or `_name`.

use vstd::prelude::*;
use vstd::utf8::*;
use crate::escape::{AMPERSAND, GREATER_THAN, LESS_THAN};
use crate::text::str_eq;

verus! {

/// The number of categories. A category's index is its position in the
/// table, from 0 to one below this.
pub const CATEGORY_COUNT: usize = 48;

/// One row of the category table.
pub struct Category {
    pub name: &'static str,
    pub class: &'static str,
    pub index: usize,
}

/// The name of the category at `index`; empty past the end of the table.
pub open spec fn category_name(index: usize) -> Seq<char> {
    match index {
        0 => "attribute"@,
        1 => "_bool"@,
        2 => "boolean"@,
        3 => "character"@,
        4 => "comment"@,
        5 => "conditional"@,
        6 => "constant"@,
        7 => "constant.builtin"@,
        8 => "constant.macro"@,
        9 => "constructor"@,
        10 => "delimiter"@,
        11 => "embedded"@,
        12 => "escape"@,
        13 => "float"@,
        14 => "function"@,
        15 => "function.builtin"@,
        16 => "function.macro"@,
        17 => "function.method"@,
        18 => "function.method.builtin"@,
        19 => "function.special"@,
        20 => "include"@,
        21 => "injection.content"@,
        22 => "injection.language"@,
        23 => "keyword"@,
        24 => "label"@,
        25 => "local.definition"@,
        26 => "local.reference"@,
        27 => "local.scope"@,
        28 => "namespace"@,
        29 => "number"@,
        30 => "operator"@,
        31 => "property"@,
        32 => "punctuation.bracket"@,
        33 => "punctuation.delimiter"@,
        34 => "punctuation.special"@,
        35 => "repeat"@,
        36 => "string"@,
        37 => "string.special"@,
        38 => "string.special.regex"@,
        39 => "string.special.symbol"@,
        40 => "symbol"@,
        41 => "tag"@,
        42 => "tag.error"@,
        43 => "type"@,
        44 => "type.builtin"@,
        45 => "variable"@,
        46 => "variable.builtin"@,
        47 => "variable.parameter"@,
        _ => Seq::empty(),
    }
}

/// The CSS class of the category at `index`; empty past the end of the table.
pub open spec fn category_class(index: usize) -> Seq<char> {
    match index {
        0 => "ts-attribute"@,
        1 => "ts-_bool"@,
        2 => "ts-boolean"@,
        3 => "ts-character"@,
        4 => "ts-comment"@,
        5 => "ts-conditional"@,
        6 => "ts-constant"@,
        7 => "ts-constant-builtin"@,
        8 => "ts-constant-macro"@,
        9 => "ts-constructor"@,
        10 => "ts-delimiter"@,
        11 => "ts-embedded"@,
        12 => "ts-escape"@,
        13 => "ts-float"@,
        14 => "ts-function"@,
        15 => "ts-function-builtin"@,
        16 => "ts-function-macro"@,
        17 => "ts-function-method"@,
        18 => "ts-function-method-builtin"@,
        19 => "ts-function-special"@,
        20 => "ts-include"@,
        21 => "ts-injection-content"@,
        22 => "ts-injection-language"@,
        23 => "ts-keyword"@,
        24 => "ts-label"@,
        25 => "ts-local-definition"@,
        26 => "ts-local-reference"@,
        27 => "ts-local-scope"@,
        28 => "ts-namespace"@,
        29 => "ts-number"@,
        30 => "ts-operator"@,
        31 => "ts-property"@,
        32 => "ts-punctuation-bracket"@,
        33 => "ts-punctuation-delimiter"@,
        34 => "ts-punctuation-special"@,
        35 => "ts-repeat"@,
        36 => "ts-string"@,
        37 => "ts-string-special"@,
        38 => "ts-string-special-regex"@,
        39 => "ts-string-special-symbol"@,
        40 => "ts-symbol"@,
        41 => "ts-tag"@,
        42 => "ts-tag-error"@,
        43 => "ts-type"@,
        44 => "ts-type-builtin"@,
        45 => "ts-variable"@,
        46 => "ts-variable-builtin"@,
        47 => "ts-variable-parameter"@,
        _ => Seq::empty(),
    }
}

/// The row of the table at `index`, if the table has one there.
pub fn category(index: usize) -> (row: Option<Category>)
    ensures
        row is Some <==> index < CATEGORY_COUNT,
        row matches Some(c) ==> c.index == index && c.name@ == category_name(index) && c.class@
            == category_class(index),
{
    match index {
        0 => Some(Category { name: "attribute", class: "ts-attribute", index }),
        1 => Some(Category { name: "_bool", class: "ts-_bool", index }),
        2 => Some(Category { name: "boolean", class: "ts-boolean", index }),
        3 => Some(Category { name: "character", class: "ts-character", index }),
        4 => Some(Category { name: "comment", class: "ts-comment", index }),
        5 => Some(Category { name: "conditional", class: "ts-conditional", index }),
        6 => Some(Category { name: "constant", class: "ts-constant", index }),
        7 => Some(Category { name: "constant.builtin", class: "ts-constant-builtin", index }),
        8 => Some(Category { name: "constant.macro", class: "ts-constant-macro", index }),
        9 => Some(Category { name: "constructor", class: "ts-constructor", index }),
        10 => Some(Category { name: "delimiter", class: "ts-delimiter", index }),
        11 => Some(Category { name: "embedded", class: "ts-embedded", index }),
        12 => Some(Category { name: "escape", class: "ts-escape", index }),
        13 => Some(Category { name: "float", class: "ts-float", index }),
        14 => Some(Category { name: "function", class: "ts-function", index }),
        15 => Some(Category { name: "function.builtin", class: "ts-function-builtin", index }),
        16 => Some(Category { name: "function.macro", class: "ts-function-macro", index }),
        17 => Some(Category { name: "function.method", class: "ts-function-method", index }),
        18 => Some(Category { name: "function.method.builtin", class: "ts-function-method-builtin", index }),
        19 => Some(Category { name: "function.special", class: "ts-function-special", index }),
        20 => Some(Category { name: "include", class: "ts-include", index }),
        21 => Some(Category { name: "injection.content", class: "ts-injection-content", index }),
        22 => Some(Category { name: "injection.language", class: "ts-injection-language", index }),
        23 => Some(Category { name: "keyword", class: "ts-keyword", index }),
        24 => Some(Category { name: "label", class: "ts-label", index }),
        25 => Some(Category { name: "local.definition", class: "ts-local-definition", index }),
        26 => Some(Category { name: "local.reference", class: "ts-local-reference", index }),
        27 => Some(Category { name: "local.scope", class: "ts-local-scope", index }),
        28 => Some(Category { name: "namespace", class: "ts-namespace", index }),
        29 => Some(Category { name: "number", class: "ts-number", index }),
        30 => Some(Category { name: "operator", class: "ts-operator", index }),
        31 => Some(Category { name: "property", class: "ts-property", index }),
        32 => Some(Category { name: "punctuation.bracket", class: "ts-punctuation-bracket", index }),
        33 => Some(Category { name: "punctuation.delimiter", class: "ts-punctuation-delimiter", index }),
        34 => Some(Category { name: "punctuation.special", class: "ts-punctuation-special", index }),
        35 => Some(Category { name: "repeat", class: "ts-repeat", index }),
        36 => Some(Category { name: "string", class: "ts-string", index }),
        37 => Some(Category { name: "string.special", class: "ts-string-special", index }),
        38 => Some(Category { name: "string.special.regex", class: "ts-string-special-regex", index }),
        39 => Some(Category { name: "string.special.symbol", class: "ts-string-special-symbol", index }),
        40 => Some(Category { name: "symbol", class: "ts-symbol", index }),
        41 => Some(Category { name: "tag", class: "ts-tag", index }),
        42 => Some(Category { name: "tag.error", class: "ts-tag-error", index }),
        43 => Some(Category { name: "type", class: "ts-type", index }),
        44 => Some(Category { name: "type.builtin", class: "ts-type-builtin", index }),
        45 => Some(Category { name: "variable", class: "ts-variable", index }),
        46 => Some(Category { name: "variable.builtin", class: "ts-variable-builtin", index }),
        47 => Some(Category { name: "variable.parameter", class: "ts-variable-parameter", index }),
        _ => None,
    }
}

/// The mark of each name of the table.
spec fn category_mark(index: usize) -> (nat, char, char) {
    match index {
        0 => (9, 'a', 'e'),
        1 => (5, '_', 'l'),
        2 => (7, 'b', 'n'),
        3 => (9, 'c', 'r'),
        4 => (7, 'c', 't'),
        5 => (11, 'c', 'l'),
        6 => (8, 'c', 't'),
        7 => (16, 'c', 'n'),
        8 => (14, 'c', 'o'),
        9 => (11, 'c', 'r'),
        10 => (9, 'd', 'r'),
        11 => (8, 'e', 'd'),
        12 => (6, 'e', 'e'),
        13 => (5, 'f', 't'),
        14 => (8, 'f', 'n'),
        15 => (16, 'f', 'n'),
        16 => (14, 'f', 'o'),
        17 => (15, 'f', 'd'),
        18 => (23, 'f', 'n'),
        19 => (16, 'f', 'l'),
        20 => (7, 'i', 'e'),
        21 => (17, 'i', 't'),
        22 => (18, 'i', 'e'),
        23 => (7, 'k', 'd'),
        24 => (5, 'l', 'l'),
        25 => (16, 'l', 'n'),
        26 => (15, 'l', 'e'),
        27 => (11, 'l', 'e'),
        28 => (9, 'n', 'e'),
        29 => (6, 'n', 'r'),
        30 => (8, 'o', 'r'),
        31 => (8, 'p', 'y'),
        32 => (19, 'p', 't'),
        33 => (21, 'p', 'r'),
        34 => (19, 'p', 'l'),
        35 => (6, 'r', 't'),
        36 => (6, 's', 'g'),
        37 => (14, 's', 'l'),
        38 => (20, 's', 'x'),
        39 => (21, 's', 'l'),
        40 => (6, 's', 'l'),
        41 => (3, 't', 'g'),
        42 => (9, 't', 'r'),
        43 => (4, 't', 'e'),
        44 => (12, 't', 'n'),
        45 => (8, 'v', 'e'),
        46 => (16, 'v', 'n'),
        47 => (18, 'v', 'r'),
        _ => (0, ' ', ' '),
    }
}

/// What tells the names of the table apart: the length of a name, its
/// first character and its last.
spec fn name_mark(name: Seq<char>) -> (nat, char, char) {
    (name.len(), name[0], name[name.len() - 1])
}

/// The mark of the name of the category at `index`.
proof fn lemma_category_name_mark(index: usize)
    requires
        index < CATEGORY_COUNT,
    ensures
        name_mark(category_name(index)) == category_mark(index),
{
    reveal_strlit("attribute");
    reveal_strlit("_bool");
    reveal_strlit("boolean");
    reveal_strlit("character");
    reveal_strlit("comment");
    reveal_strlit("conditional");
    reveal_strlit("constant");
    reveal_strlit("constant.builtin");
    reveal_strlit("constant.macro");
    reveal_strlit("constructor");
    reveal_strlit("delimiter");
    reveal_strlit("embedded");
    reveal_strlit("escape");
    reveal_strlit("float");
    reveal_strlit("function");
    reveal_strlit("function.builtin");
    reveal_strlit("function.macro");
    reveal_strlit("function.method");
    reveal_strlit("function.method.builtin");
    reveal_strlit("function.special");
    reveal_strlit("include");
    reveal_strlit("injection.content");
    reveal_strlit("injection.language");
    reveal_strlit("keyword");
    reveal_strlit("label");
    reveal_strlit("local.definition");
    reveal_strlit("local.reference");
    reveal_strlit("local.scope");
    reveal_strlit("namespace");
    reveal_strlit("number");
    reveal_strlit("operator");
    reveal_strlit("property");
    reveal_strlit("punctuation.bracket");
    reveal_strlit("punctuation.delimiter");
    reveal_strlit("punctuation.special");
    reveal_strlit("repeat");
    reveal_strlit("string");
    reveal_strlit("string.special");
    reveal_strlit("string.special.regex");
    reveal_strlit("string.special.symbol");
    reveal_strlit("symbol");
    reveal_strlit("tag");
    reveal_strlit("tag.error");
    reveal_strlit("type");
    reveal_strlit("type.builtin");
    reveal_strlit("variable");
    reveal_strlit("variable.builtin");
    reveal_strlit("variable.parameter");
}

/// No two categories of the table have the same name.
pub proof fn lemma_category_names_differ(first: usize, second: usize)
    requires
        first < CATEGORY_COUNT,
        second < CATEGORY_COUNT,
        first != second,
    ensures
        category_name(first) != category_name(second),
{
    lemma_category_name_mark(first);
    lemma_category_name_mark(second);
    assert(category_mark(first) != category_mark(second));
}

/// The names of all categories, in table order: the list that a classifier
/// is to be configured with, so that the indices it gives are those of the
/// table.
pub fn category_names() -> (names: Vec<String>)
    ensures
        names@.len() == CATEGORY_COUNT,
        forall|i: int| 0 <= i < CATEGORY_COUNT ==> (#[trigger] names@[i])@ == category_name(i as usize),
{
    let mut names: Vec<String> = Vec::new();
    let mut index: usize = 0;
    while index < CATEGORY_COUNT
        invariant
            index <= CATEGORY_COUNT,
            names@.len() == index,
            forall|i: int| 0 <= i < index ==> (#[trigger] names@[i])@ == category_name(i as usize),
        decreases CATEGORY_COUNT - index,
    {
        if let Some(row) = category(index) {
            names.push(row.name.to_owned());
        }
        index += 1;
    }
    names
}

/// The index of the category with the given name, by exact match; nothing
/// where the table has no category of that name. No two categories have
/// the same name, so the index is the only one.
pub fn category_index(name: &str) -> (found: Option<usize>)
    ensures
        match found {
            Some(index) => index < CATEGORY_COUNT && category_name(index) == name@,
            None => forall|i: usize| i < CATEGORY_COUNT ==> #[trigger] category_name(i) != name@,
        },
{
    let mut index: usize = 0;
    while index < CATEGORY_COUNT
        invariant
            index <= CATEGORY_COUNT,
            forall|i: usize| i < index ==> #[trigger] category_name(i) != name@,
        decreases CATEGORY_COUNT - index,
    {
        if let Some(row) = category(index) {
            if str_eq(row.name, name) {
                return Some(index);
            }
        }
        index += 1;
    }
    None
}

/// A character that a class of the table may hold: a lower-case letter, a
/// hyphen or an underscore.
pub open spec fn is_class_char(c: char) -> bool {
    ('a' <= c && c <= 'z') || c == '-' || c == '_'
}

/// Every class of the table is made of class characters alone.
pub proof fn lemma_category_class_chars(index: usize)
    ensures
        forall|i: int|
            0 <= i < category_class(index).len() ==> is_class_char(
                #[trigger] category_class(index)[i],
            ),
{
    reveal_strlit("ts-attribute");
    reveal_strlit("ts-_bool");
    reveal_strlit("ts-boolean");
    reveal_strlit("ts-character");
    reveal_strlit("ts-comment");
    reveal_strlit("ts-conditional");
    reveal_strlit("ts-constant");
    reveal_strlit("ts-constant-builtin");
    reveal_strlit("ts-constant-macro");
    reveal_strlit("ts-constructor");
    reveal_strlit("ts-delimiter");
    reveal_strlit("ts-embedded");
    reveal_strlit("ts-escape");
    reveal_strlit("ts-float");
    reveal_strlit("ts-function");
    reveal_strlit("ts-function-builtin");
    reveal_strlit("ts-function-macro");
    reveal_strlit("ts-function-method");
    reveal_strlit("ts-function-method-builtin");
    reveal_strlit("ts-function-special");
    reveal_strlit("ts-include");
    reveal_strlit("ts-injection-content");
    reveal_strlit("ts-injection-language");
    reveal_strlit("ts-keyword");
    reveal_strlit("ts-label");
    reveal_strlit("ts-local-definition");
    reveal_strlit("ts-local-reference");
    reveal_strlit("ts-local-scope");
    reveal_strlit("ts-namespace");
    reveal_strlit("ts-number");
    reveal_strlit("ts-operator");
    reveal_strlit("ts-property");
    reveal_strlit("ts-punctuation-bracket");
    reveal_strlit("ts-punctuation-delimiter");
    reveal_strlit("ts-punctuation-special");
    reveal_strlit("ts-repeat");
    reveal_strlit("ts-string");
    reveal_strlit("ts-string-special");
    reveal_strlit("ts-string-special-regex");
    reveal_strlit("ts-string-special-symbol");
    reveal_strlit("ts-symbol");
    reveal_strlit("ts-tag");
    reveal_strlit("ts-tag-error");
    reveal_strlit("ts-type");
    reveal_strlit("ts-type-builtin");
    reveal_strlit("ts-variable");
    reveal_strlit("ts-variable-builtin");
    reveal_strlit("ts-variable-parameter");
}

/// The bytes of `class="`.
pub open spec fn class_attribute_prefix() -> Seq<u8> {
    seq![0x63u8, 0x6cu8, 0x61u8, 0x73u8, 0x73u8, 0x3du8, 0x22u8]
}

/// The class attribute of the category at `index`: `class="`, the bytes of
/// its class, and a closing quote.
pub open spec fn class_attribute(index: usize) -> Seq<u8> {
    class_attribute_prefix() + encode_utf8(category_class(index)) + seq![0x22u8]
}

/// No class attribute of the table holds a `<`, a `>` or a `&`.
pub proof fn lemma_class_attribute_is_plain(index: usize)
    ensures
        forall|i: int|
            0 <= i < class_attribute(index).len() ==> #[trigger] class_attribute(index)[i]
                != LESS_THAN && class_attribute(index)[i] != GREATER_THAN && class_attribute(
                index,
            )[i] != AMPERSAND,
{
    let class = category_class(index);
    lemma_category_class_chars(index);
    assert(is_ascii_chars(class));
    is_ascii_chars_encode_utf8(class);
    let bytes = encode_utf8(class);
    assert forall|i: int| 0 <= i < bytes.len() implies #[trigger] bytes[i] != LESS_THAN
        && bytes[i] != GREATER_THAN && bytes[i] != AMPERSAND by {
        assert(is_class_char(class[i]));
        assert(bytes[i] == class[i] as u8);
    }
}

/// The class attributes of all categories, built once and then only read.
pub struct CategoryTable {
    attributes: Vec<Vec<u8>>,
}

impl CategoryTable {
    #[verifier::type_invariant]
    spec fn well_formed(self) -> bool {
        &&& self.attributes.len() == CATEGORY_COUNT
        &&& forall|i: int|
            0 <= i < CATEGORY_COUNT ==> (#[trigger] self.attributes[i])@ == class_attribute(
                i as usize,
            )
    }

    /// The class attributes that the table holds, by category index.
    pub closed spec fn attributes(self) -> Seq<Seq<u8>> {
        Seq::new(self.attributes.len() as nat, |i: int| self.attributes[i]@)
    }

    /// Builds the class attribute of every category of the table.
    pub fn new() -> (table: CategoryTable)
        ensures
            table.attributes().len() == CATEGORY_COUNT,
            forall|i: int|
                0 <= i < CATEGORY_COUNT ==> #[trigger] table.attributes()[i] == class_attribute(
                    i as usize,
                ),
    {
        let mut attributes: Vec<Vec<u8>> = Vec::new();
        let mut index: usize = 0;
        while index < CATEGORY_COUNT
            invariant
                index <= CATEGORY_COUNT,
                attributes.len() == index,
                forall|i: int|
                    0 <= i < index ==> (#[trigger] attributes[i])@ == class_attribute(i as usize),
            decreases CATEGORY_COUNT - index,
        {
            let mut attribute: Vec<u8> = Vec::new();
            attribute.push(0x63);
            attribute.push(0x6c);
            attribute.push(0x61);
            attribute.push(0x73);
            attribute.push(0x73);
            attribute.push(0x3d);
            attribute.push(0x22);
            if let Some(row) = category(index) {
                attribute.extend_from_slice(row.class.as_bytes());
            }
            attribute.push(0x22);
            assert(attribute@ =~= class_attribute(index));
            attributes.push(attribute);
            index += 1;
        }
        CategoryTable { attributes }
    }

    /// The class attribute of the category at `index`, such as
    /// `class="ts-keyword"`, if the table has that category.
    pub fn class_attribute(&self, index: usize) -> (attribute: Option<&[u8]>)
        ensures
            attribute is Some <==> index < CATEGORY_COUNT,
            attribute matches Some(bytes) ==> bytes@ == class_attribute(index),
    {
        proof {
            use_type_invariant(self);
        }
        if index < CATEGORY_COUNT {
            Some(self.attributes[index].as_slice())
        } else {
            None
        }
    }
}

} // verus!
