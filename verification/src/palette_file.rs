//! Custom palette files: a TOML document with a `name`, a non-empty
//! `colors` array of `#RRGGBB` strings and an optional `accents` array.

use vstd::prelude::*;
use crate::normalize::{
    lower, lower_all, is_normalized_name, law_normalized_fixes_exactly_names, normalized, normalized_spec,
};
use crate::size::{decimal, decimal_chars};
use crate::text::{chars_of, same_chars, text_of};

verus! {

/// An element of a TOML array, as far as palette files care.
pub enum TomlItem {
    /// A string.
    Text(String),
    /// Any other value.
    Other,
}

/// A TOML value, as far as palette files care.
pub enum TomlValue {
    /// A string.
    Text(String),
    /// An array.
    Array(Vec<TomlItem>),
    /// Any other value.
    Other,
}

/// A top-level key of a TOML document with its value.
pub struct TomlEntry {
    pub key: String,
    pub value: TomlValue,
}

/// The contents of a `TomlItem`.
pub ghost enum ItemView {
    Text(Seq<char>),
    Other,
}

/// The contents of a `TomlValue`.
pub ghost enum ValueView {
    Text(Seq<char>),
    Array(Seq<ItemView>),
    Other,
}

impl View for TomlItem {
    type V = ItemView;

    open spec fn view(&self) -> ItemView {
        match self {
            TomlItem::Text(text) => ItemView::Text(text@),
            TomlItem::Other => ItemView::Other,
        }
    }
}

impl View for TomlValue {
    type V = ValueView;

    open spec fn view(&self) -> ValueView {
        match self {
            TomlValue::Text(text) => ValueView::Text(text@),
            TomlValue::Array(items) => ValueView::Array(items@.map_values(|item: TomlItem| item@)),
            TomlValue::Other => ValueView::Other,
        }
    }
}

impl View for TomlEntry {
    type V = (Seq<char>, ValueView);

    open spec fn view(&self) -> (Seq<char>, ValueView) {
        (self.key@, self.value@)
    }
}

/// The entries of a document, by their views.
pub open spec fn entries_view(entries: Seq<TomlEntry>) -> Seq<(Seq<char>, ValueView)> {
    entries.map_values(|entry: TomlEntry| entry@)
}

/// The top-level entries of the TOML document `text`, in the order the
/// parser hands them out, or the parser's error message.
pub uninterp spec fn toml_table(text: Seq<char>) -> Result<Seq<(Seq<char>, ValueView)>, Seq<char>>;

/// Parses `text` as a TOML table with `toml`'s `FromStr` for `toml::Table`
/// and keeps, for every top-level key, whether its value is a string (with
/// the string), an array (with, for every element, whether it is a string)
/// or something else. Claimed: the result is a function of `text` alone,
/// named `toml_table`; on failure it is the parser error's display text.
#[verifier::external_body]
fn parse_toml_table(text: &str) -> (parsed: Result<Vec<TomlEntry>, String>)
    ensures
        match parsed {
            Ok(entries) => toml_table(text@) == Ok::<_, Seq<char>>(entries_view(entries@)),
            Err(message) => toml_table(text@) == Err::<Seq<(Seq<char>, ValueView)>, _>(message@),
        },
{
    let table = text.parse::<toml::Table>().map_err(|error| error.to_string())?;
    let item = |value: toml::Value| match value {
        toml::Value::String(text) => TomlItem::Text(text),
        _ => TomlItem::Other,
    };
    let entry = |(key, value): (String, toml::Value)| match value {
        toml::Value::String(text) => TomlEntry { key, value: TomlValue::Text(text) },
        toml::Value::Array(items) => TomlEntry { key, value: TomlValue::Array(items.into_iter().map(item).collect()) },
        _ => TomlEntry { key, value: TomlValue::Other },
    };
    Ok(table.into_iter().map(entry).collect())
}


/// The value of a hexadecimal digit (either letter case).
pub open spec fn hex_digit_value(c: char) -> Option<nat> {
    if '0' <= c && c <= '9' {
        Some((c as nat - '0' as nat) as nat)
    } else if 'a' <= c && c <= 'f' {
        Some((c as nat - 'a' as nat + 10) as nat)
    } else if 'A' <= c && c <= 'F' {
        Some((c as nat - 'A' as nat + 10) as nat)
    } else {
        None
    }
}

/// The number written by the hexadecimal digits `digits`.
pub open spec fn hex_number(digits: Seq<char>) -> nat
    decreases digits.len(),
{
    if digits.len() == 0 {
        0
    } else {
        16 * hex_number(digits.drop_last()) + hex_digit_value(digits.last())->0
    }
}

/// All of `digits` are hexadecimal digits.
pub open spec fn all_hex(digits: Seq<char>) -> bool {
    forall|i: int| 0 <= i < digits.len() ==> (#[trigger] hex_digit_value(digits[i])) is Some
}

/// The colour a `#RRGGBB` string stands for: `#` and then six characters,
/// each a hexadecimal digit.
pub open spec fn hex_color_spec(value: Seq<char>) -> Option<u32> {
    if value.len() == 7 && value[0] == '#' && all_hex(value.subrange(1, 7)) {
        Some(hex_number(value.subrange(1, 7)) as u32)
    } else {
        None
    }
}

/// `16` to the power `n`.
pub open spec fn sixteen_to(n: nat) -> nat
    decreases n,
{
    if n == 0 {
        1
    } else {
        16 * sixteen_to((n - 1) as nat)
    }
}

proof fn lemma_sixteen_to_monotonic(m: nat, n: nat)
    requires
        m <= n,
    ensures
        sixteen_to(m) <= sixteen_to(n),
    decreases n,
{
    if m < n {
        lemma_sixteen_to_monotonic(m, (n - 1) as nat);
    }
}

proof fn lemma_hex_number_bound(digits: Seq<char>)
    requires
        all_hex(digits),
    ensures
        hex_number(digits) < sixteen_to(digits.len()),
    decreases digits.len(),
{
    if digits.len() > 0 {
        let init = digits.drop_last();
        assert(all_hex(init)) by {
            assert forall|i: int| 0 <= i < init.len() implies (#[trigger] hex_digit_value(
                init[i],
            )) is Some by {
                assert(init[i] == digits[i]);
            }
        }
        lemma_hex_number_bound(init);
        assert(hex_digit_value(digits[digits.len() - 1]) is Some);
        let p = sixteen_to(init.len());
        let h = hex_number(init);
        let d = hex_digit_value(digits.last())->0;
        assert(16 * h + d < 16 * p) by (nonlinear_arith)
            requires
                h < p,
                d < 16,
        ;
    }
}

/// The colour written as `#RRGGBB` (letters in either case), if `value` is
/// one.
pub fn hex_color(value: &[char]) -> (color: Option<u32>)
    ensures
        color == hex_color_spec(value@),
{
    if value.len() != 7 || value[0] != '#' {
        return None;
    }
    let ghost digits = value@.subrange(1, 7);
    let mut number: u32 = 0;
    let mut i: usize = 1;
    while i < 7
        invariant
            value@.len() == 7,
            value@[0] == '#',
            1 <= i <= 7,
            digits == value@.subrange(1, 7),
            all_hex(value@.subrange(1, i as int)),
            number == hex_number(value@.subrange(1, i as int)),
            number < sixteen_to((i - 1) as nat),
        decreases 7 - i,
    {
        let c = value[i];
        let d: u32 = if '0' <= c && c <= '9' {
            (c as u32) - ('0' as u32)
        } else if 'a' <= c && c <= 'f' {
            (c as u32) - ('a' as u32) + 10
        } else if 'A' <= c && c <= 'F' {
            (c as u32) - ('A' as u32) + 10
        } else {
            proof {
                assert(digits[i - 1] == c);
                assert(hex_digit_value(digits[i - 1]) is None);
                assert(!all_hex(digits));
            }
            return None;
        };
        let ghost prefix = value@.subrange(1, i + 1);
        proof {
            assert(prefix.drop_last() == value@.subrange(1, i as int));
            assert(prefix.last() == c);
            assert(all_hex(prefix)) by {
                assert forall|k: int| 0 <= k < prefix.len() implies (#[trigger] hex_digit_value(
                    prefix[k],
                )) is Some by {
                    if k < prefix.len() - 1 {
                        assert(prefix[k] == value@.subrange(1, i as int)[k]);
                    }
                }
            }
            lemma_hex_number_bound(prefix);
            lemma_sixteen_to_monotonic(i as nat, 6);
            reveal_with_fuel(sixteen_to, 7);
        }
        number = 16 * number + d;
        i = i + 1;
    }
    assert(value@.subrange(1, 7) == digits);
    Some(number)
}


/// The value of the first entry with key `key`.
pub open spec fn lookup(entries: Seq<(Seq<char>, ValueView)>, key: Seq<char>) -> Option<ValueView>
    decreases entries.len(),
{
    if entries.len() == 0 {
        None
    } else if entries[0].0 == key {
        Some(entries[0].1)
    } else {
        lookup(entries.drop_first(), key)
    }
}

/// A key a palette file may have.
pub open spec fn is_palette_key(key: Seq<char>) -> bool {
    key == "name"@ || key == "colors"@ || key == "accents"@
}

/// The first key that a palette file may not have, if any.
pub open spec fn first_unknown_key(entries: Seq<(Seq<char>, ValueView)>) -> Option<Seq<char>>
    decreases entries.len(),
{
    if entries.len() == 0 {
        None
    } else if !is_palette_key(entries[0].0) {
        Some(entries[0].0)
    } else {
        first_unknown_key(entries.drop_first())
    }
}

pub open spec fn unknown_field_message(key: Seq<char>) -> Seq<char> {
    "unknown palette field '"@ + key + "'"@
}

pub open spec fn missing_name_message() -> Seq<char> {
    "missing required string 'name'"@
}

pub open spec fn bad_name_message() -> Seq<char> {
    "'name' must contain only a-z, 0-9, and single hyphens"@
}

pub open spec fn missing_array_message(field: Seq<char>) -> Seq<char> {
    "missing required '"@ + field + "' array"@
}

pub open spec fn not_array_message(field: Seq<char>) -> Seq<char> {
    "'"@ + field + "' must be an array of hex color strings"@
}

pub open spec fn empty_array_message(field: Seq<char>) -> Seq<char> {
    "'"@ + field + "' must contain at least one color"@
}

pub open spec fn not_string_message(field: Seq<char>, index: nat) -> Seq<char> {
    "'"@ + field + "["@ + decimal(index) + "]' must be a hex color string"@
}

pub open spec fn invalid_color_message(value: Seq<char>, field: Seq<char>, index: nat) -> Seq<char> {
    "invalid color '"@ + value + "' in '"@ + field + "["@ + decimal(index)
        + "]': expected #RRGGBB"@
}

/// The colours of the elements of the array `field`, or the error for its
/// first element that is not a `#RRGGBB` string.
pub open spec fn item_colors(items: Seq<ItemView>, field: Seq<char>) -> Result<Seq<u32>, Seq<char>>
    decreases items.len(),
{
    if items.len() == 0 {
        Ok(seq![])
    } else {
        let index = (items.len() - 1) as nat;
        match item_colors(items.drop_last(), field) {
            Err(message) => Err(message),
            Ok(colors) => match items.last() {
                ItemView::Text(value) => match hex_color_spec(value) {
                    Some(color) => Ok(colors.push(color)),
                    None => Err(invalid_color_message(value, field, index)),
                },
                ItemView::Other => Err(not_string_message(field, index)),
            },
        }
    }
}

/// The colours listed under `field`: an array of `#RRGGBB` strings, which
/// must be present and non-empty when `required` and counts as empty when
/// absent otherwise.
pub open spec fn field_colors(entries: Seq<(Seq<char>, ValueView)>, field: Seq<char>, required: bool)
    -> Result<Seq<u32>, Seq<char>> {
    match lookup(entries, field) {
        None => if required {
            Err(missing_array_message(field))
        } else {
            Ok(seq![])
        },
        Some(ValueView::Array(items)) => if required && items.len() == 0 {
            Err(empty_array_message(field))
        } else {
            item_colors(items, field)
        },
        Some(_) => Err(not_array_message(field)),
    }
}

proof fn lemma_item_colors_error_persists(items: Seq<ItemView>, k: int, field: Seq<char>)
    requires
        0 <= k <= items.len(),
        item_colors(items.subrange(0, k), field) is Err,
    ensures
        item_colors(items, field) == item_colors(items.subrange(0, k), field),
    decreases items.len() - k,
{
    if k == items.len() {
        assert(items.subrange(0, k) == items);
    } else {
        let next = items.subrange(0, k + 1);
        assert(next.drop_last() == items.subrange(0, k));
        lemma_item_colors_error_persists(items, k + 1, field);
    }
}

/// A palette read from a file: its name, its colours and its accents.
pub struct CustomPalette {
    pub name: String,
    pub colors: Vec<u32>,
    pub accents: Vec<u32>,
}

/// The palette a document describes (name, colours, accents), or the first
/// problem with it: an unknown key, a missing or malformed `name`, then the
/// problems of `colors` and of `accents`.
pub open spec fn palette_spec(entries: Seq<(Seq<char>, ValueView)>) -> Result<
    (Seq<char>, Seq<u32>, Seq<u32>),
    Seq<char>,
> {
    match first_unknown_key(entries) {
        Some(key) => Err(unknown_field_message(key)),
        None => match lookup(entries, "name"@) {
            Some(ValueView::Text(name)) => if normalized_spec(name) == Ok::<Seq<char>, Seq<char>>(
                name,
            ) {
                match field_colors(entries, "colors"@, true) {
                    Err(message) => Err(message),
                    Ok(colors) => match field_colors(entries, "accents"@, false) {
                        Err(message) => Err(message),
                        Ok(accents) => Ok((name, colors, accents)),
                    },
                }
            } else {
                Err(bad_name_message())
            },
            _ => Err(missing_name_message()),
        },
    }
}

/// The parts of a palette.
pub open spec fn palette_view(palette: CustomPalette) -> (Seq<char>, Seq<u32>, Seq<u32>) {
    (palette.name@, palette.colors@, palette.accents@)
}

/// The position of the first entry with key `key`.
fn find_entry(entries: &Vec<TomlEntry>, key: &str) -> (found: Option<usize>)
    ensures
        match found {
            Some(i) => i < entries@.len() && lookup(entries_view(entries@), key@) == Some(
                entries@[i as int].value@,
            ),
            None => lookup(entries_view(entries@), key@) is None,
        },
{
    let ghost all = entries_view(entries@);
    let wanted = chars_of(key);
    assert(all.subrange(0, all.len() as int) == all);
    let mut i: usize = 0;
    while i < entries.len()
        invariant
            0 <= i <= entries@.len(),
            all == entries_view(entries@),
            wanted@ == key@,
            lookup(all, key@) == lookup(all.subrange(i as int, all.len() as int), key@),
        decreases entries.len() - i,
    {
        let ghost rest = all.subrange(i as int, all.len() as int);
        proof {
            assert(rest[0] == entries@[i as int]@);
            assert(rest.drop_first() == all.subrange(i + 1, all.len() as int));
        }
        if same_chars(chars_of(entries[i].key.as_str()).as_slice(), wanted.as_slice()) {
            return Some(i);
        }
        i = i + 1;
    }
    None
}

/// Whether `key` is `name`, `colors` or `accents`.
fn is_palette_key_exec(key: &str) -> (known: bool)
    ensures
        known == is_palette_key(key@),
{
    let k = chars_of(key);
    same_chars(k.as_slice(), chars_of("name").as_slice()) || same_chars(
        k.as_slice(),
        chars_of("colors").as_slice(),
    ) || same_chars(k.as_slice(), chars_of("accents").as_slice())
}

/// `'<field>[<index>]` as it starts the messages about an array element.
fn element_label(field: &str, index: usize) -> (label: String)
    ensures
        label@ == "'"@ + field@ + "["@ + decimal(index as nat),
{
    let mut label = String::from_str("'");
    label.append(field);
    label.append("[");
    let digits = text_of(decimal_chars(index as u128).as_slice());
    label.append(digits.as_str());
    label
}

/// The colours listed under `field` in a palette document: an array of
/// `#RRGGBB` strings, required to be present and non-empty when `required`,
/// empty when absent otherwise; the error names the first problem.
pub fn parse_colors(entries: &Vec<TomlEntry>, field: &str, required: bool) -> (result: Result<
    Vec<u32>,
    String,
>)
    ensures
        match result {
            Ok(colors) => field_colors(entries_view(entries@), field@, required) == Ok::<
                Seq<u32>,
                Seq<char>,
            >(colors@),
            Err(message) => field_colors(entries_view(entries@), field@, required) == Err::<
                Seq<u32>,
                Seq<char>,
            >(message@),
        },
{
    let position = find_entry(entries, field);
    let index = match position {
        None => {
            if required {
                let mut message = String::from_str("missing required '");
                message.append(field);
                message.append("' array");
                return Err(message);
            } else {
                return Ok(Vec::new());
            }
        },
        Some(index) => index,
    };
    let items = match &entries[index].value {
        TomlValue::Array(items) => items,
        _ => {
            let mut message = String::from_str("'");
            message.append(field);
            message.append("' must be an array of hex color strings");
            return Err(message);
        },
    };
    let ghost views = items@.map_values(|item: TomlItem| item@);
    assert(lookup(entries_view(entries@), field@) == Some(ValueView::Array(views)));
    if required && items.len() == 0 {
        let mut message = String::from_str("'");
        message.append(field);
        message.append("' must contain at least one color");
        return Err(message);
    }
    let mut colors: Vec<u32> = Vec::new();
    let mut i: usize = 0;
    while i < items.len()
        invariant
            0 <= i <= items@.len(),
            views == items@.map_values(|item: TomlItem| item@),
            lookup(entries_view(entries@), field@) == Some(ValueView::Array(views)),
            !(required && views.len() == 0),
            item_colors(views.subrange(0, i as int), field@) == Ok::<Seq<u32>, Seq<char>>(
                colors@,
            ),
        decreases items.len() - i,
    {
        let ghost prefix = views.subrange(0, i + 1);
        proof {
            assert(prefix.drop_last() == views.subrange(0, i as int));
            assert(prefix.last() == items@[i as int]@);
        }
        match &items[i] {
            TomlItem::Text(value) => {
                match hex_color(chars_of(value.as_str()).as_slice()) {
                    Some(color) => {
                        colors.push(color);
                    },
                    None => {
                        let mut message = String::from_str("invalid color '");
                        message.append(value.as_str());
                        message.append("' in '");
                        message.append(field);
                        message.append("[");
                        let digits = text_of(decimal_chars(i as u128).as_slice());
                        message.append(digits.as_str());
                        message.append("]': expected #RRGGBB");
                        assert(message@ == invalid_color_message(value@, field@, i as nat));
                        proof {
                            lemma_item_colors_error_persists(views, i + 1, field@);
                        }
                        return Err(message);
                    },
                }
            },
            TomlItem::Other => {
                let mut message = element_label(field, i);
                message.append("]' must be a hex color string");
                proof {
                    lemma_item_colors_error_persists(views, i + 1, field@);
                }
                return Err(message);
            },
        }
        i = i + 1;
    }
    assert(views.subrange(0, items@.len() as int) == views);
    Ok(colors)
}

/// The palette a parsed palette document describes, or the first problem
/// with it.
pub fn palette_from_document(entries: &Vec<TomlEntry>) -> (result: Result<CustomPalette, String>)
    ensures
        match result {
            Ok(palette) => palette_spec(entries_view(entries@)) == Ok::<_, Seq<char>>(
                palette_view(palette),
            ),
            Err(message) => palette_spec(entries_view(entries@)) == Err::<
                (Seq<char>, Seq<u32>, Seq<u32>),
                _,
            >(message@),
        },
{
    let ghost all = entries_view(entries@);
    assert(all.subrange(0, all.len() as int) == all);
    let mut i: usize = 0;
    while i < entries.len()
        invariant
            0 <= i <= entries@.len(),
            all == entries_view(entries@),
            first_unknown_key(all) == first_unknown_key(all.subrange(i as int, all.len() as int)),
        decreases entries.len() - i,
    {
        let ghost rest = all.subrange(i as int, all.len() as int);
        proof {
            assert(rest[0] == entries@[i as int]@);
            assert(rest.drop_first() == all.subrange(i + 1, all.len() as int));
        }
        if !is_palette_key_exec(entries[i].key.as_str()) {
            let mut message = String::from_str("unknown palette field '");
            message.append(entries[i].key.as_str());
            message.append("'");
            return Err(message);
        }
        i = i + 1;
    }
    let name = match find_entry(entries, "name") {
        Some(index) => match &entries[index].value {
            TomlValue::Text(name) => name,
            _ => {
                return Err(String::from_str("missing required string 'name'"));
            },
        },
        None => {
            return Err(String::from_str("missing required string 'name'"));
        },
    };
    let fixed = match normalized(name.as_str()) {
        Ok(normal) => same_chars(
            chars_of(normal.as_str()).as_slice(),
            chars_of(name.as_str()).as_slice(),
        ),
        Err(_) => false,
    };
    if !fixed {
        return Err(String::from_str("'name' must contain only a-z, 0-9, and single hyphens"));
    }
    let colors = match parse_colors(entries, "colors", true) {
        Ok(colors) => colors,
        Err(message) => {
            return Err(message);
        },
    };
    let accents = match parse_colors(entries, "accents", false) {
        Ok(accents) => accents,
        Err(message) => {
            return Err(message);
        },
    };
    Ok(CustomPalette { name: name.clone(), colors, accents })
}

/// The palette a palette file with contents `text` describes, or the TOML
/// parser's error, or the first problem with the document.
pub fn parse_custom_palette(text: &str) -> (result: Result<CustomPalette, String>)
    ensures
        match toml_table(text@) {
            Err(message) => result matches Err(m) && m@ == message,
            Ok(entries) => match result {
                Ok(palette) => palette_spec(entries) == Ok::<_, Seq<char>>(palette_view(palette)),
                Err(message) => palette_spec(entries) == Err::<
                    (Seq<char>, Seq<u32>, Seq<u32>),
                    _,
                >(message@),
            },
        },
{
    match parse_toml_table(text) {
        Ok(entries) => palette_from_document(&entries),
        Err(message) => Err(message),
    }
}


/// A palette file is accepted only when its name is made of `a-z`, `0-9`
/// and single hyphens (no hyphen at either end); a file whose keys are all
/// known and whose `name` is a string of any other shape is refused with
/// the name error.
pub proof fn law_palette_names_are_normalized(entries: Seq<(Seq<char>, ValueView)>)
    ensures
        palette_spec(entries) matches Ok(palette) ==> is_normalized_name(palette.0),
        first_unknown_key(entries) is None ==> (lookup(entries, "name"@) matches Some(
            ValueView::Text(name),
        ) ==> (!is_normalized_name(name) ==> palette_spec(entries) == Err::<
            (Seq<char>, Seq<u32>, Seq<u32>),
            Seq<char>,
        >(bad_name_message()))),
{
    if let Some(ValueView::Text(name)) = lookup(entries, "name"@) {
        law_normalized_fixes_exactly_names(name);
    }
}

proof fn lemma_hex_color_bound(value: Seq<char>)
    ensures
        hex_color_spec(value) matches Some(color) ==> color <= 0xFFFFFF,
{
    if value.len() == 7 && value[0] == '#' && all_hex(value.subrange(1, 7)) {
        lemma_hex_number_bound(value.subrange(1, 7));
        reveal_with_fuel(sixteen_to, 7);
        assert(sixteen_to(6) == 0x1000000);
    }
}

proof fn lemma_item_colors_shape(items: Seq<ItemView>, field: Seq<char>)
    ensures
        item_colors(items, field) matches Ok(colors) ==> {
            &&& colors.len() == items.len()
            &&& forall|k: int| 0 <= k < colors.len() ==> #[trigger] colors[k] <= 0xFFFFFF
        },
    decreases items.len(),
{
    if items.len() > 0 {
        lemma_item_colors_shape(items.drop_last(), field);
        if let ItemView::Text(value) = items.last() {
            lemma_hex_color_bound(value);
        }
    }
}

proof fn lemma_known_keys(entries: Seq<(Seq<char>, ValueView)>)
    ensures
        first_unknown_key(entries) is None ==> forall|k: int|
            0 <= k < entries.len() ==> is_palette_key(#[trigger] entries[k].0),
        first_unknown_key(entries) matches Some(key) ==> !is_palette_key(key) && exists|k: int|
            0 <= k < entries.len() && #[trigger] entries[k].0 == key,
    decreases entries.len(),
{
    if entries.len() > 0 {
        let rest = entries.drop_first();
        lemma_known_keys(rest);
        if is_palette_key(entries[0].0) {
            assert forall|k: int| 0 < k < entries.len() implies #[trigger] entries[k].0 == rest[k
                - 1].0 by {}
            if let Some(key) = first_unknown_key(rest) {
                let k = choose|k: int| 0 <= k < rest.len() && #[trigger] rest[k].0 == key;
                assert(entries[k + 1].0 == key);
            }
        } else {
            assert(entries[0].0 == first_unknown_key(entries)->0);
        }
    }
}

/// What an accepted palette file holds: only the keys `name`, `colors` and
/// `accents`; a `name` string that is already normalised; at least one
/// colour; every colour and accent within `0xFFFFFF`; no accents when the
/// file has no `accents` key. A file with another key is refused for the
/// first such key.
pub proof fn law_accepted_palette(entries: Seq<(Seq<char>, ValueView)>)
    ensures
        palette_spec(entries) matches Ok(palette) ==> {
            &&& forall|k: int| 0 <= k < entries.len() ==> is_palette_key(#[trigger] entries[k].0)
            &&& lookup(entries, "name"@) == Some(ValueView::Text(palette.0))
            &&& normalized_spec(palette.0) == Ok::<Seq<char>, Seq<char>>(palette.0)
            &&& palette.1.len() >= 1
            &&& forall|k: int| 0 <= k < palette.1.len() ==> #[trigger] palette.1[k] <= 0xFFFFFF
            &&& forall|k: int| 0 <= k < palette.2.len() ==> #[trigger] palette.2[k] <= 0xFFFFFF
            &&& lookup(entries, "accents"@) is None ==> palette.2.len() == 0
        },
        first_unknown_key(entries) matches Some(key) ==> {
            &&& !is_palette_key(key)
            &&& exists|k: int| 0 <= k < entries.len() && #[trigger] entries[k].0 == key
            &&& palette_spec(entries) == Err::<(Seq<char>, Seq<u32>, Seq<u32>), Seq<char>>(
                unknown_field_message(key),
            )
        },
{
    lemma_known_keys(entries);
    if let Some(ValueView::Array(items)) = lookup(entries, "colors"@) {
        lemma_item_colors_shape(items, "colors"@);
    }
    if let Some(ValueView::Array(items)) = lookup(entries, "accents"@) {
        lemma_item_colors_shape(items, "accents"@);
    }
}

/// The decimal digits, the letters `a` to `f` and `A` to `F` are the
/// hexadecimal digits: `0`–`9` are worth 0 to 9 and the letters 10 to 15 in
/// either case; nothing else is a digit.
pub proof fn law_hex_digits(c: char)
    ensures
        '0' <= c <= '9' ==> hex_digit_value(c) == Some((c as int - '0' as int) as nat),
        'a' <= c <= 'f' ==> hex_digit_value(c) == Some((c as int - 'a' as int + 10) as nat),
        'A' <= c <= 'F' ==> hex_digit_value(c) == Some((c as int - 'A' as int + 10) as nat),
        hex_digit_value(c) is Some <==> ('0' <= c <= '9' || 'a' <= c <= 'f' || 'A' <= c <= 'F'),
        hex_digit_value(c) matches Some(v) ==> v < 16,
{
}

/// A `#RRGGBB` colour is the number its six digits write in base 16, the
/// first digit the most significant.
pub proof fn law_hex_color_value(value: Seq<char>)
    requires
        value.len() == 7,
        value[0] == '#',
        forall|i: int| 1 <= i < 7 ==> (#[trigger] hex_digit_value(value[i])) is Some,
    ensures
        hex_color_spec(value) == Some(
            (hex_digit_value(value[1])->0 * 0x100000 + hex_digit_value(value[2])->0 * 0x10000
                + hex_digit_value(value[3])->0 * 0x1000 + hex_digit_value(value[4])->0 * 0x100
                + hex_digit_value(value[5])->0 * 0x10 + hex_digit_value(value[6])->0) as u32,
        ),
{
    let d = value.subrange(1, 7);
    assert(all_hex(d)) by {
        assert forall|i: int| 0 <= i < d.len() implies (#[trigger] hex_digit_value(d[i])) is Some by {
            assert(d[i] == value[i + 1]);
        }
    }
    let d5 = d.drop_last();
    let d4 = d5.drop_last();
    let d3 = d4.drop_last();
    let d2 = d3.drop_last();
    let d1 = d2.drop_last();
    let d0 = d1.drop_last();
    assert(d0.len() == 0);
    assert(d1.last() == value[1]);
    assert(d2.last() == value[2]);
    assert(d3.last() == value[3]);
    assert(d4.last() == value[4]);
    assert(d5.last() == value[5]);
    assert(d.last() == value[6]);
    assert(hex_number(d0) == 0);
    assert(hex_number(d1) == hex_digit_value(value[1])->0);
    assert(hex_number(d2) == 16 * hex_number(d1) + hex_digit_value(value[2])->0);
    assert(hex_number(d3) == 16 * hex_number(d2) + hex_digit_value(value[3])->0);
    assert(hex_number(d4) == 16 * hex_number(d3) + hex_digit_value(value[4])->0);
    assert(hex_number(d5) == 16 * hex_number(d4) + hex_digit_value(value[5])->0);
    assert(hex_number(d) == 16 * hex_number(d5) + hex_digit_value(value[6])->0);
}

proof fn lemma_hex_lower(c: char)
    ensures
        hex_digit_value(lower(c)) == hex_digit_value(c),
{
    if 'A' <= c && c <= 'Z' {
        assert(lower(c) as int == c as int + 32);
    }
}

proof fn lemma_hex_number_lower(digits: Seq<char>)
    ensures
        all_hex(lower_all(digits)) == all_hex(digits),
        hex_number(lower_all(digits)) == hex_number(digits),
    decreases digits.len(),
{
    let l = lower_all(digits);
    assert forall|i: int| 0 <= i < digits.len() implies #[trigger] hex_digit_value(l[i])
        == hex_digit_value(digits[i]) by {
        lemma_hex_lower(digits[i]);
    }
    assert(all_hex(l) == all_hex(digits)) by {
        if all_hex(digits) {
            assert forall|i: int| 0 <= i < l.len() implies (#[trigger] hex_digit_value(l[i])) is Some by {
                assert(hex_digit_value(l[i]) == hex_digit_value(digits[i]));
            }
        }
        if all_hex(l) {
            assert forall|i: int| 0 <= i < digits.len() implies (#[trigger] hex_digit_value(
                digits[i],
            )) is Some by {
                assert(hex_digit_value(l[i]) == hex_digit_value(digits[i]));
            }
        }
    }
    if digits.len() > 0 {
        lemma_hex_number_lower(digits.drop_last());
        assert(l.drop_last() =~= lower_all(digits.drop_last()));
        assert(hex_digit_value(l.last()) == hex_digit_value(digits.last()));
    }
}

/// The letter case of a colour's digits does not matter: a colour and its
/// lowercase spelling are read alike.
pub proof fn law_hex_color_ignores_case(value: Seq<char>)
    ensures
        hex_color_spec(lower_all(value)) == hex_color_spec(value),
{
    if value.len() == 7 {
        let l = lower_all(value);
        assert(l.subrange(1, 7) =~= lower_all(value.subrange(1, 7)));
        lemma_hex_number_lower(value.subrange(1, 7));
        assert(l[0] == lower(value[0]));
        assert((l[0] == '#') == (value[0] == '#'));
    }
}

} // verus!
