//! File names: which inputs are glob patterns or images, which were already
//! produced by a recolouring, and what an output is called.

use vstd::prelude::*;
use crate::format::{extension_spec, OutputFormat};
use crate::normalize::{
    hyphen_free, is_name_char, is_number_char, is_word_char, law_normalized_is_name, lemma_number_words,
    lemma_words_wf,
    lemma_words_windows,
    is_normalized_name, join, lemma_name_words, lemma_normalized_join, lower, lower_all, normalized,
    normalized_spec, words,
};
use crate::size::{decimal, decimal_chars};
use crate::text::{
    chars_of, concat, ends_with, ends_with_exec, last_occurrence, last_occurrence_exec,
    lemma_last_occurrence, occurs_at, same_chars, slice_of, text_of,
};
use crate::theme::{all_themes, law_every_theme_listed, theme_at, theme_name, Theme};

verus! {

/// The file name of a path (`/` separating its components), as
/// `Path::file_name` gives it: the last component that is neither empty nor
/// `.`, unless that component is `..` or there is none.
pub open spec fn path_file_name(path: Seq<char>) -> Option<Seq<char>>
    decreases path.len(),
{
    match last_occurrence(path, seq!['/']) {
        Some(i) => {
            let segment = path.subrange(i + 1, path.len() as int);
            if segment.len() == 0 || segment == seq!['.'] {
                if 0 <= i < path.len() {
                    path_file_name(path.subrange(0, i))
                } else {
                    None
                }
            } else if segment == seq!['.', '.'] {
                None
            } else {
                Some(segment)
            }
        },
        None => if path.len() == 0 || path == seq!['.'] || path == seq!['.', '.'] {
            None
        } else {
            Some(path)
        },
    }
}

/// The position of the dot that separates stem and extension in a file name,
/// if there is one: the last dot, unless it is the first character (a hidden
/// file without extension) or the name is `..`.
pub open spec fn extension_dot(name: Seq<char>) -> Option<int> {
    match last_occurrence(name, seq!['.']) {
        Some(i) => if i > 0 && name != seq!['.', '.'] {
            Some(i)
        } else {
            None
        },
        None => None,
    }
}

/// The stem of a file name: the name without its extension.
pub open spec fn file_stem(name: Seq<char>) -> Seq<char> {
    match extension_dot(name) {
        Some(i) => name.subrange(0, i),
        None => name,
    }
}

/// The extension of a file name, without its dot.
pub open spec fn file_extension(name: Seq<char>) -> Option<Seq<char>> {
    match extension_dot(name) {
        Some(i) => Some(name.subrange(i + 1, name.len() as int)),
        None => None,
    }
}

/// An extension of an image the command reads, in any letter case.
pub open spec fn is_image_extension(extension: Seq<char>) -> bool {
    let l = lower_all(extension);
    l == "png"@ || l == "jpg"@ || l == "jpeg"@ || l == "webp"@
}

/// Whether a file with this name is read as an image.
pub open spec fn supported_spec(name: Seq<char>) -> bool {
    match file_extension(name) {
        Some(extension) => is_image_extension(extension),
        None => false,
    }
}

/// Whether the file at `path` is read as an image: it has a file name, and
/// that name has an image extension.
pub open spec fn path_supported(path: Seq<char>) -> bool {
    match path_file_name(path) {
        Some(name) => supported_spec(name),
        None => false,
    }
}

/// `s` without its last occurrence of `p` and everything after it.
pub open spec fn strip_last(s: Seq<char>, p: Seq<char>) -> Seq<char> {
    match last_occurrence(s, p) {
        Some(i) => s.subrange(0, i),
        None => s,
    }
}

/// `stem` ends with the suffix an output of the named palette carries.
pub open spec fn carries_palette(stem: Seq<char>, palette: Seq<char>) -> bool {
    ||| ends_with(stem, "-"@ + palette)
    ||| ends_with(stem, "-"@ + palette + "-accent"@)
    ||| ends_with(stem, "-"@ + palette + "-neutral"@)
}

/// A stem without the mix and lambda parts an output stem may end with.
pub open spec fn stem_base(stem: Seq<char>) -> Seq<char> {
    strip_last(strip_last(stem, "-mix-"@), "-lambda-"@)
}

/// The stem of a file name without the mix and lambda parts an output name
/// may end with.
pub open spec fn recolored_base(name: Seq<char>) -> Seq<char> {
    stem_base(file_stem(name))
}

/// Whether a file with this stem looks like the output of an earlier
/// recolouring, with a built-in palette or the named one.
pub open spec fn stem_recolored(stem: Seq<char>, palette: Seq<char>) -> bool {
    let base = stem_base(stem);
    carries_palette(base, palette) || exists|t: Theme| carries_palette(base, theme_name(t))
}

/// Whether a file with this name looks like the output of an earlier
/// recolouring, with a built-in palette or the named one.
pub open spec fn already_recolored_spec(name: Seq<char>, palette: Seq<char>) -> bool {
    stem_recolored(file_stem(name), palette)
}

/// Whether the file at `path` looks like the output of an earlier
/// recolouring: it has a file name, and that name does.
pub open spec fn path_recolored(path: Seq<char>, palette: Seq<char>) -> bool {
    match path_file_name(path) {
        Some(name) => already_recolored_spec(name, palette),
        None => false,
    }
}

/// `marker` followed by the value's text, when a value is given and parts
/// are not left out; nothing otherwise.
pub open spec fn optional_part(marker: Seq<char>, value: Option<Seq<char>>, omitted: bool) -> Seq<
    char,
> {
    match value {
        Some(v) => if omitted {
            seq![]
        } else {
            marker + v
        },
        None => seq![],
    }
}

/// The stem of an output: the input stem, the palette name, and the suffixes
/// for neutral-only palettes and non-default lambda and mix (`None` stands
/// for the default value; the text is how the value is written).
pub open spec fn output_stem(
    stem: Seq<char>,
    palette: Seq<char>,
    neutral_only: bool,
    lambda: Option<Seq<char>>,
    mix: Option<Seq<char>>,
    palette_name_only: bool,
) -> Seq<char> {
    let neutral = if neutral_only && !palette_name_only {
        "-neutral"@
    } else {
        seq![]
    };
    stem + "-"@ + palette + neutral + optional_part("-lambda-"@, lambda, palette_name_only)
        + optional_part("-mix-"@, mix, palette_name_only)
}

/// The file name of the output for an input with stem `stem`, or the error
/// normalisation reports.
pub open spec fn stem_output_name(
    stem: Seq<char>,
    normalize_name: bool,
    format: OutputFormat,
    palette: Seq<char>,
    neutral_only: bool,
    lambda: Option<Seq<char>>,
    mix: Option<Seq<char>>,
    palette_name_only: bool,
) -> Result<Seq<char>, Seq<char>> {
    let out_stem = output_stem(stem, palette, neutral_only, lambda, mix, palette_name_only);
    if normalize_name {
        match normalized_spec(out_stem) {
            Ok(out) => Ok(out + "."@ + extension_spec(format)),
            Err(message) => Err(message),
        }
    } else {
        Ok(out_stem + "."@ + extension_spec(format))
    }
}

/// The file name of the output for an input with file name `name`, or the
/// error normalisation reports.
pub open spec fn output_name_spec(
    name: Seq<char>,
    normalize_name: bool,
    format: OutputFormat,
    palette: Seq<char>,
    neutral_only: bool,
    lambda: Option<Seq<char>>,
    mix: Option<Seq<char>>,
    palette_name_only: bool,
) -> Result<Seq<char>, Seq<char>> {
    stem_output_name(
        file_stem(name),
        normalize_name,
        format,
        palette,
        neutral_only,
        lambda,
        mix,
        palette_name_only,
    )
}

/// The message for an input path without a file name.
pub open spec fn invalid_name_message(path: Seq<char>) -> Seq<char> {
    "invalid input name: "@ + path
}

/// The file name of the output for the input at `path` (the output is
/// written beside the input), or the error: for a path without a file name,
/// or the one normalisation reports.
pub open spec fn path_output_name(
    path: Seq<char>,
    normalize_name: bool,
    format: OutputFormat,
    palette: Seq<char>,
    neutral_only: bool,
    lambda: Option<Seq<char>>,
    mix: Option<Seq<char>>,
    palette_name_only: bool,
) -> Result<Seq<char>, Seq<char>> {
    match path_file_name(path) {
        Some(name) => output_name_spec(
            name,
            normalize_name,
            format,
            palette,
            neutral_only,
            lambda,
            mix,
            palette_name_only,
        ),
        None => Err(invalid_name_message(path)),
    }
}

/// The view of an optional text.
pub open spec fn opt_view(text: Option<&str>) -> Option<Seq<char>> {
    match text {
        Some(t) => Some(t@),
        None => None,
    }
}

/// The file name of a path (see `path_file_name`).
fn path_file_name_exec(path: &[char]) -> (name: Option<Vec<char>>)
    ensures
        match name {
            Some(n) => path_file_name(path@) == Some(n@),
            None => path_file_name(path@) is None,
        },
    decreases path@.len(),
{
    proof {
        lemma_last_occurrence(path@, seq!['/']);
    }
    let slash = ['/'];
    assert(slash@ == seq!['/']);
    match last_occurrence_exec(path, &slash) {
        Some(i) => {
            let n = path.len();
            assert(i + 1 <= n);
            let segment = slice_of(path, i + 1, n);
            let current = segment.len() == 1 && segment[0] == '.';
            let parent = segment.len() == 2 && segment[0] == '.' && segment[1] == '.';
            assert(current <==> segment@ == seq!['.']) by {
                if segment@ == seq!['.'] {
                    assert(segment@[0] == '.');
                }
                if current {
                    assert(segment@ == seq!['.']);
                }
            }
            assert(parent <==> segment@ == seq!['.', '.']) by {
                if segment@ == seq!['.', '.'] {
                    assert(segment@[0] == '.' && segment@[1] == '.');
                }
                if parent {
                    assert(segment@ == seq!['.', '.']);
                }
            }
            if segment.len() == 0 || current {
                let before = slice_of(path, 0, i);
                path_file_name_exec(before.as_slice())
            } else if parent {
                None
            } else {
                Some(segment)
            }
        },
        None => {
            let current = path.len() == 1 && path[0] == '.';
            let parent = path.len() == 2 && path[0] == '.' && path[1] == '.';
            assert(current <==> path@ == seq!['.']) by {
                if path@ == seq!['.'] {
                    assert(path@[0] == '.');
                }
                if current {
                    assert(path@ == seq!['.']);
                }
            }
            assert(parent <==> path@ == seq!['.', '.']) by {
                if path@ == seq!['.', '.'] {
                    assert(path@[0] == '.' && path@[1] == '.');
                }
                if parent {
                    assert(path@ == seq!['.', '.']);
                }
            }
            if path.len() == 0 || current || parent {
                None
            } else {
                Some(slice_of(path, 0, path.len()))
            }
        },
    }
}

/// The position of the stem/extension dot of `name`, if any.
fn extension_dot_exec(name: &[char]) -> (dot: Option<usize>)
    ensures
        match dot {
            Some(i) => extension_dot(name@) == Some(i as int) && 0 < i < name@.len(),
            None => extension_dot(name@) is None,
        },
{
    proof {
        lemma_last_occurrence(name@, seq!['.']);
    }
    let dot = ['.'];
    assert(dot@ == seq!['.']);
    match last_occurrence_exec(name, &dot) {
        Some(i) => {
            let parent = name.len() == 2 && name[0] == '.' && name[1] == '.';
            assert(parent <==> name@ == seq!['.', '.']) by {
                if name@ == seq!['.', '.'] {
                    assert(name@[0] == '.' && name@[1] == '.');
                }
                if parent {
                    assert(name@ == seq!['.', '.']);
                }
            }
            if i > 0 && !parent {
                Some(i)
            } else {
                None
            }
        },
        None => None,
    }
}

/// The stem of a file name.
pub fn file_stem_exec(name: &[char]) -> (stem: Vec<char>)
    ensures
        stem@ == file_stem(name@),
{
    match extension_dot_exec(name) {
        Some(i) => slice_of(name, 0, i),
        None => slice_of(name, 0, name.len()),
    }
}

/// Whether `extension` is that of an image the command reads.
fn image_extension_chars(extension: &[char]) -> (image: bool)
    ensures
        image == is_image_extension(extension@),
{
    let mut lowered: Vec<char> = Vec::new();
    let mut k: usize = 0;
    while k < extension.len()
        invariant
            0 <= k <= extension@.len(),
            lowered@ == lower_all(extension@.subrange(0, k as int)),
        decreases extension.len() - k,
    {
        let c = extension[k];
        let l = if 'A' <= c && c <= 'Z' {
            ((c as u8) + 32) as char
        } else {
            c
        };
        assert(l == lower(c));
        lowered.push(l);
        assert(lowered@ == lower_all(extension@.subrange(0, k + 1)));
        k = k + 1;
    }
    assert(extension@.subrange(0, extension@.len() as int) == extension@);
    let lowered = lowered.as_slice();
    same_chars(lowered, chars_of("png").as_slice()) || same_chars(
        lowered,
        chars_of("jpg").as_slice(),
    ) || same_chars(lowered, chars_of("jpeg").as_slice()) || same_chars(
        lowered,
        chars_of("webp").as_slice(),
    )
}

/// Whether `extension` (without its dot) is that of an image the command
/// reads: `png`, `jpg`, `jpeg` or `webp`, in any ASCII letter case.
pub fn image_extension(extension: &str) -> (image: bool)
    ensures
        image == is_image_extension(extension@),
{
    image_extension_chars(chars_of(extension).as_slice())
}

/// Whether the file at `path` is read as an image: its file name has the
/// extension `png`, `jpg`, `jpeg` or `webp`, in any ASCII letter case.
pub fn supported(path: &str) -> (supported: bool)
    ensures
        supported == path_supported(path@),
{
    let name = match path_file_name_exec(chars_of(path).as_slice()) {
        Some(name) => name,
        None => {
            return false;
        },
    };
    let n = name.len();
    match extension_dot_exec(name.as_slice()) {
        Some(i) => {
            assert(i < n);
            image_extension_chars(slice_of(name.as_slice(), i + 1, n).as_slice())
        },
        None => false,
    }
}

/// `s` without its last occurrence of `p` and everything after it.
fn strip_last_exec(s: &[char], p: &[char]) -> (stripped: Vec<char>)
    ensures
        stripped@ == strip_last(s@, p@),
{
    proof {
        lemma_last_occurrence(s@, p@);
    }
    match last_occurrence_exec(s, p) {
        Some(i) => slice_of(s, 0, i),
        None => slice_of(s, 0, s.len()),
    }
}

/// Whether `stem` ends with a suffix an output of the palette named
/// `palette` carries.
fn carries_palette_exec(stem: &[char], palette: &[char]) -> (carries: bool)
    ensures
        carries == carries_palette(stem@, palette@),
{
    let dash = chars_of("-");
    let with_dash = concat(dash.as_slice(), palette);
    let accent = concat(with_dash.as_slice(), chars_of("-accent").as_slice());
    let neutral = concat(with_dash.as_slice(), chars_of("-neutral").as_slice());
    ends_with_exec(stem, with_dash.as_slice()) || ends_with_exec(stem, accent.as_slice())
        || ends_with_exec(stem, neutral.as_slice())
}

/// Whether a file with stem `stem` looks like an earlier output.
fn recolored_chars(stem: &[char], palette_name: &str) -> (recolored: bool)
    ensures
        recolored == stem_recolored(stem@, palette_name@),
{
    let without_mix = strip_last_exec(stem, chars_of("-mix-").as_slice());
    let base = strip_last_exec(without_mix.as_slice(), chars_of("-lambda-").as_slice());
    assert(base@ == stem_base(stem@));
    if carries_palette_exec(base.as_slice(), chars_of(palette_name).as_slice()) {
        return true;
    }
    let mut k: usize = 0;
    while k < 7
        invariant
            0 <= k <= 7,
            base@ == stem_base(stem@),
            forall|j: int| 0 <= j < k ==> !carries_palette(base@, theme_name(all_themes()[j])),
        decreases 7 - k,
    {
        let theme = theme_at(k);
        if carries_palette_exec(base.as_slice(), chars_of(theme.name()).as_slice()) {
            return true;
        }
        k = k + 1;
    }
    assert forall|t: Theme| !carries_palette(base@, theme_name(t)) by {
        law_every_theme_listed(t);
    }
    false
}

/// Whether a file with stem `stem` looks like an earlier output: the stem,
/// after dropping a trailing `-mix-…` and then a trailing `-lambda-…` part,
/// ends with `-<palette>`, `-<palette>-accent` or `-<palette>-neutral` for a
/// built-in palette or the one named `palette_name`.
pub fn recolored_stem(stem: &str, palette_name: &str) -> (recolored: bool)
    ensures
        recolored == stem_recolored(stem@, palette_name@),
{
    recolored_chars(chars_of(stem).as_slice(), palette_name)
}

/// Whether the file at `path` looks like an earlier output: whether the
/// stem of its file name does (see `recolored_stem`); a path without a file
/// name does not.
pub fn already_recolored(path: &str, palette_name: &str) -> (recolored: bool)
    ensures
        recolored == path_recolored(path@, palette_name@),
{
    let name = match path_file_name_exec(chars_of(path).as_slice()) {
        Some(name) => name,
        None => {
            return false;
        },
    };
    let stem = file_stem_exec(name.as_slice());
    recolored_chars(stem.as_slice(), palette_name)
}

/// The file name of the output for an input with stem `stem`: the stem,
/// `-<palette>`, `-neutral` when only neutral colours are used, `-lambda-<l>`
/// and `-mix-<m>` for the values given (a `None` stands for the default
/// value, which adds nothing), none of these suffixes when only the palette
/// name is wanted; the whole stem normalised when `normalize_name`; then the
/// format's extension.
pub fn output_name_for_stem(
    stem: &str,
    normalize_name: bool,
    format: OutputFormat,
    palette_name: &str,
    neutral_only: bool,
    lambda: Option<&str>,
    mix: Option<&str>,
    palette_name_only: bool,
) -> (result: Result<String, String>)
    ensures
        match result {
            Ok(out) => stem_output_name(
                stem@,
                normalize_name,
                format,
                palette_name@,
                neutral_only,
                opt_view(lambda),
                opt_view(mix),
                palette_name_only,
            ) == Ok::<Seq<char>, Seq<char>>(out@),
            Err(message) => stem_output_name(
                stem@,
                normalize_name,
                format,
                palette_name@,
                neutral_only,
                opt_view(lambda),
                opt_view(mix),
                palette_name_only,
            ) == Err::<Seq<char>, Seq<char>>(message@),
        },
{
    let mut out = stem.to_owned();
    out.append("-");
    out.append(palette_name);
    if neutral_only && !palette_name_only {
        out.append("-neutral");
    }
    if !palette_name_only {
        if let Some(l) = lambda {
            out.append("-lambda-");
            out.append(l);
        }
        if let Some(m) = mix {
            out.append("-mix-");
            out.append(m);
        }
    }
    assert(out@ == output_stem(
        stem@,
        palette_name@,
        neutral_only,
        opt_view(lambda),
        opt_view(mix),
        palette_name_only,
    ));
    if normalize_name {
        match normalized(out.as_str()) {
            Ok(mut normal) => {
                normal.append(".");
                normal.append(format.extension());
                Ok(normal)
            },
            Err(message) => Err(message),
        }
    } else {
        out.append(".");
        out.append(format.extension());
        Ok(out)
    }
}

/// The file name of the output for the input at `path` (the output is
/// written beside the input): the output name for the stem of the input's
/// file name (see `output_name_for_stem`); for a path without a file name,
/// the error `invalid input name: <path>`.
pub fn output_file_name(
    path: &str,
    normalize_name: bool,
    format: OutputFormat,
    palette_name: &str,
    neutral_only: bool,
    lambda: Option<&str>,
    mix: Option<&str>,
    palette_name_only: bool,
) -> (result: Result<String, String>)
    ensures
        match result {
            Ok(out) => path_output_name(
                path@,
                normalize_name,
                format,
                palette_name@,
                neutral_only,
                opt_view(lambda),
                opt_view(mix),
                palette_name_only,
            ) == Ok::<Seq<char>, Seq<char>>(out@),
            Err(message) => path_output_name(
                path@,
                normalize_name,
                format,
                palette_name@,
                neutral_only,
                opt_view(lambda),
                opt_view(mix),
                palette_name_only,
            ) == Err::<Seq<char>, Seq<char>>(message@),
        },
{
    let name = match path_file_name_exec(chars_of(path).as_slice()) {
        Some(name) => name,
        None => {
            let mut message = String::from_str("invalid input name: ");
            message.append(path);
            return Err(message);
        },
    };
    let stem = text_of(file_stem_exec(name.as_slice()).as_slice());
    output_name_for_stem(
        stem.as_str(),
        normalize_name,
        format,
        palette_name,
        neutral_only,
        lambda,
        mix,
        palette_name_only,
    )
}

/// The name of the temporary file an output is first written to, beside
/// the output: a dot, the output's file name, a dot, the process id in
/// decimal and `.tmp`.
pub open spec fn temp_name_spec(output_name: Seq<char>, process_id: nat) -> Seq<char> {
    "."@ + output_name + "."@ + decimal(process_id) + ".tmp"@
}

/// The temporary file name for the output named `output_name` written by
/// the process `process_id`: `.<output_name>.<process_id>.tmp`.
pub fn temp_file_name(output_name: &str, process_id: u32) -> (name: String)
    ensures
        name@ == temp_name_spec(output_name@, process_id as nat),
{
    let mut name = String::from_str(".");
    name.append(output_name);
    name.append(".");
    let digits = text_of(decimal_chars(process_id as u128).as_slice());
    name.append(digits.as_str());
    name.append(".tmp");
    name
}

/// A character that makes an input a glob pattern.
pub open spec fn is_glob_char(c: char) -> bool {
    c == '*' || c == '?' || c == '['
}

/// The input text holds a glob character, so it is expanded as a pattern.
pub open spec fn is_glob_pattern(text: Seq<char>) -> bool {
    exists|i: int| 0 <= i < text.len() && is_glob_char(#[trigger] text[i])
}

/// Whether an input is a glob pattern: it holds `*`, `?` or `[`.
pub fn has_glob_characters(text: &str) -> (glob: bool)
    ensures
        glob == is_glob_pattern(text@),
{
    let chars = chars_of(text);
    let mut i: usize = 0;
    while i < chars.len()
        invariant
            0 <= i <= chars@.len(),
            chars@ == text@,
            forall|j: int| 0 <= j < i ==> !is_glob_char(#[trigger] chars@[j]),
        decreases chars.len() - i,
    {
        let c = chars[i];
        if c == '*' || c == '?' || c == '[' {
            assert(is_glob_char(chars@[i as int]));
            return true;
        }
        i = i + 1;
    }
    false
}

/// `p` occurs in `p + r` only at the start.
pub open spec fn marker_only_at_start(p: Seq<char>, r: Seq<char>) -> bool {
    forall|j: int| j > 0 ==> !occurs_at(p + r, p, j)
}

proof fn lemma_last_occurrence_is_marker(a: Seq<char>, p: Seq<char>, r: Seq<char>)
    requires
        marker_only_at_start(p, r),
    ensures
        last_occurrence(a + p + r, p) == Some(a.len() as int),
        strip_last(a + p + r, p) == a,
{
    let x = a + p + r;
    lemma_last_occurrence(x, p);
    assert(x.subrange(a.len() as int, (a.len() + p.len()) as int) == p);
    assert(occurs_at(x, p, a.len() as int));
    let tail = x.subrange(a.len() as int, x.len() as int);
    assert(tail == p + r);
    assert forall|j: int| occurs_at(x, p, j) implies j <= a.len() by {
        if j > a.len() {
            assert(tail.subrange(j - a.len(), j - a.len() + p.len()) == x.subrange(j, j + p.len()));
            assert(occurs_at(p + r, p, j - a.len()));
        }
    }
    let found = last_occurrence(x, p)->0;
    assert(found == a.len());
    assert(x.subrange(0, a.len() as int) == a);
}

proof fn lemma_strip_absent(s: Seq<char>, p: Seq<char>)
    requires
        last_occurrence(s, p) is None,
    ensures
        strip_last(s, p) == s,
{
}

proof fn lemma_ends_with_suffix(s: Seq<char>, t: Seq<char>)
    ensures
        ends_with(s + t, t),
{
    assert((s + t).subrange(s.len() as int, (s + t).len() as int) == t);
}

proof fn lemma_extension_literals()
    ensures
        forall|f: OutputFormat|
            #![trigger extension_spec(f)]
            extension_spec(f).len() > 0 && forall|j: int|
                0 <= j < extension_spec(f).len() ==> extension_spec(f)[j] != '.',
{
    reveal_strlit("png");
    reveal_strlit("webp");
    reveal_strlit("jpg");
    assert forall|f: OutputFormat|
        #![trigger extension_spec(f)]
        extension_spec(f).len() > 0 && forall|j: int|
            0 <= j < extension_spec(f).len() ==> extension_spec(f)[j] != '.' by {
        match f {
            OutputFormat::Png => {},
            OutputFormat::Webp => {},
            OutputFormat::Jpg => {},
        }
    }
}

proof fn lemma_stem_of_output(x: Seq<char>, format: OutputFormat)
    requires
        x.len() > 0,
    ensures
        file_stem(x + "."@ + extension_spec(format)) == x,
{
    reveal_strlit(".");
    let ext = extension_spec(format);
    lemma_extension_literals();
    let dot: Seq<char> = seq!['.'];
    assert("."@ == dot);
    assert forall|j: int| j > 0 implies !occurs_at(dot + ext, dot, j) by {
        if occurs_at(dot + ext, dot, j) {
            assert((dot + ext).subrange(j, j + 1)[0] == (dot + ext)[j]);
            assert((dot + ext)[j] == ext[j - 1]);
        }
    }
    lemma_last_occurrence_is_marker(x, dot, ext);
    let out = x + dot + ext;
    assert(out.len() > 2);
    assert(out != seq!['.', '.']);
    assert(out.subrange(0, x.len() as int) == x);
}

proof fn lemma_strip_marker_part(before: Seq<char>, marker: Seq<char>, v: Seq<char>)
    requires
        marker_only_at_start(marker, v),
    ensures
        strip_last(before + (marker + v), marker) == before,
{
    lemma_last_occurrence_is_marker(before, marker, v);
    assert(before + (marker + v) =~= before + marker + v);
}

proof fn lemma_strip_suffix(
    before: Seq<char>,
    marker: Seq<char>,
    value: Option<Seq<char>>,
    omitted: bool,
)
    requires
        value matches Some(v) ==> marker_only_at_start(marker, v),
        (value is None || omitted) ==> last_occurrence(before, marker) is None,
    ensures
        strip_last(before + optional_part(marker, value, omitted), marker) == before,
{
    if value is Some && !omitted {
        lemma_strip_marker_part(before, marker, value->0);
    } else {
        assert(before + optional_part(marker, value, omitted) =~= before);
        lemma_strip_absent(before, marker);
    }
}

proof fn lemma_base_carries(stem: Seq<char>, palette: Seq<char>, neutral: bool)
    ensures
        carries_palette(
            stem + "-"@ + palette + if neutral {
                "-neutral"@
            } else {
                seq![]
            },
            palette,
        ),
{
    if neutral {
        lemma_ends_with_suffix(stem, "-"@ + palette + "-neutral"@);
        assert(stem + "-"@ + palette + "-neutral"@ == stem + ("-"@ + palette + "-neutral"@));
    } else {
        lemma_ends_with_suffix(stem, "-"@ + palette);
        assert(stem + "-"@ + palette + seq![] == stem + ("-"@ + palette));
    }
}

/// The conditions under which an output name built from `stem` is
/// recognised again: the texts of lambda and mix do not repeat their
/// markers (`-lambda-`, `-mix-`), and where a part is left out, the text
/// before it does not contain that part's marker.
pub open spec fn rerun_safe(
    stem: Seq<char>,
    palette: Seq<char>,
    neutral_only: bool,
    lambda: Option<Seq<char>>,
    mix: Option<Seq<char>>,
    palette_name_only: bool,
) -> bool {
    let neutral = if neutral_only && !palette_name_only {
        "-neutral"@
    } else {
        seq![]
    };
    let base = stem + "-"@ + palette + neutral;
    &&& lambda matches Some(l) ==> marker_only_at_start("-lambda-"@, l)
    &&& mix matches Some(m) ==> marker_only_at_start("-mix-"@, m)
    &&& (lambda is None || palette_name_only) ==> last_occurrence(base, "-lambda-"@) is None
    &&& (mix is None || palette_name_only) ==> last_occurrence(
        base + optional_part("-lambda-"@, lambda, palette_name_only),
        "-mix-"@,
    ) is None
}

proof fn lemma_output_stem_recognized(
    stem: Seq<char>,
    format: OutputFormat,
    palette: Seq<char>,
    neutral_only: bool,
    lambda: Option<Seq<char>>,
    mix: Option<Seq<char>>,
    palette_name_only: bool,
)
    requires
        rerun_safe(stem, palette, neutral_only, lambda, mix, palette_name_only),
    ensures
        already_recolored_spec(
            output_stem(stem, palette, neutral_only, lambda, mix, palette_name_only) + "."@
                + extension_spec(format),
            palette,
        ),
{
    let neutral = if neutral_only && !palette_name_only {
        "-neutral"@
    } else {
        seq![]
    };
    let base = stem + "-"@ + palette + neutral;
    let lambda_suffix = optional_part("-lambda-"@, lambda, palette_name_only);
    let mix_suffix = optional_part("-mix-"@, mix, palette_name_only);
    let x = output_stem(stem, palette, neutral_only, lambda, mix, palette_name_only);
    assert(x == base + lambda_suffix + mix_suffix);
    lemma_strip_suffix(base + lambda_suffix, "-mix-"@, mix, palette_name_only);
    lemma_strip_suffix(base, "-lambda-"@, lambda, palette_name_only);
    reveal_strlit("-");
    lemma_stem_of_output(x, format);
    let out = x + "."@ + extension_spec(format);
    assert(recolored_base(out) == base);
    lemma_base_carries(stem, palette, neutral_only && !palette_name_only);
}

/// Running again on an output does not recolour it a second time: the file
/// name an input gets without normalisation is one `already_recolored`
/// recognises for the same palette, under the conditions of `rerun_safe`.
pub proof fn law_outputs_are_recognized(
    name: Seq<char>,
    format: OutputFormat,
    palette: Seq<char>,
    neutral_only: bool,
    lambda: Option<Seq<char>>,
    mix: Option<Seq<char>>,
    palette_name_only: bool,
)
    requires
        rerun_safe(file_stem(name), palette, neutral_only, lambda, mix, palette_name_only),
    ensures
        output_name_spec(
            name,
            false,
            format,
            palette,
            neutral_only,
            lambda,
            mix,
            palette_name_only,
        ) matches Ok(out) ==> already_recolored_spec(out, palette),
{
    lemma_output_stem_recognized(
        file_stem(name),
        format,
        palette,
        neutral_only,
        lambda,
        mix,
        palette_name_only,
    );
}

/// The normalisation of an optional text.
pub open spec fn normalized_value(value: Option<Seq<char>>) -> Option<Seq<char>> {
    match value {
        Some(v) => Some(join(words(v))),
        None => None,
    }
}

proof fn lemma_normalized_part(
    y: Seq<char>,
    word: Seq<char>,
    marker: Seq<char>,
    value: Option<Seq<char>>,
    omitted: bool,
)
    requires
        words(y).len() > 0,
        is_normalized_name(word),
        marker == seq!['-'] + word + seq!['-'],
        value matches Some(v) ==> words(v).len() > 0,
    ensures
        words(y + optional_part(marker, value, omitted)).len() > 0,
        join(words(y + optional_part(marker, value, omitted))) == join(words(y)) + optional_part(
            marker,
            normalized_value(value),
            omitted,
        ),
{
    if value is Some && !omitted {
        let v = value->0;
        lemma_name_words(word);
        lemma_normalized_join(y, word);
        let yw = y + seq!['-'] + word;
        lemma_normalized_join(yw, v);
        assert(y + (marker + v) =~= yw + seq!['-'] + v);
        assert(join(words(y)) + seq!['-'] + word + seq!['-'] + join(words(v)) =~= join(words(y))
            + (marker + join(words(v))));
    } else {
        assert(y + seq![] =~= y);
        assert(join(words(y)) + seq![] =~= join(words(y)));
    }
}

proof fn lemma_marker_literals()
    ensures
        is_normalized_name("neutral"@),
        is_normalized_name("lambda"@),
        is_normalized_name("mix"@),
        "-neutral"@ == seq!['-'] + "neutral"@,
        "-lambda-"@ == seq!['-'] + "lambda"@ + seq!['-'],
        "-mix-"@ == seq!['-'] + "mix"@ + seq!['-'],
        "-"@ == seq!['-'],
{
    reveal_strlit("neutral");
    reveal_strlit("lambda");
    reveal_strlit("mix");
    reveal_strlit("-neutral");
    reveal_strlit("-lambda-");
    reveal_strlit("-mix-");
    reveal_strlit("-");
    assert("-neutral"@ =~= seq!['-'] + "neutral"@);
    assert("-lambda-"@ =~= seq!['-'] + "lambda"@ + seq!['-']);
    assert("-mix-"@ =~= seq!['-'] + "mix"@ + seq!['-']);
    assert("-"@ =~= seq!['-']);
}

/// With normalisation too, running again does not recolour an output a
/// second time, for a palette whose name is made of `a-z`, `0-9` and single
/// hyphens, an input stem with letters or digits, lambda and mix texts with
/// letters or digits, and the conditions of `rerun_safe` on the normalised
/// parts.
pub proof fn law_normalized_outputs_are_recognized(
    name: Seq<char>,
    format: OutputFormat,
    palette: Seq<char>,
    neutral_only: bool,
    lambda: Option<Seq<char>>,
    mix: Option<Seq<char>>,
    palette_name_only: bool,
)
    requires
        words(file_stem(name)).len() > 0,
        is_normalized_name(palette),
        lambda matches Some(l) ==> words(l).len() > 0,
        mix matches Some(m) ==> words(m).len() > 0,
        rerun_safe(
            join(words(file_stem(name))),
            palette,
            neutral_only,
            normalized_value(lambda),
            normalized_value(mix),
            palette_name_only,
        ),
    ensures
        output_name_spec(
            name,
            true,
            format,
            palette,
            neutral_only,
            lambda,
            mix,
            palette_name_only,
        ) matches Ok(out) ==> already_recolored_spec(out, palette),
{
    let stem = file_stem(name);
    let short = join(words(stem));
    lemma_marker_literals();
    lemma_name_words(palette);
    let y0 = stem + "-"@ + palette;
    lemma_normalized_join(stem, palette);
    let neutral = if neutral_only && !palette_name_only {
        "-neutral"@
    } else {
        seq![]
    };
    let y1 = y0 + neutral;
    if neutral_only && !palette_name_only {
        lemma_name_words("neutral"@);
        lemma_normalized_join(y0, "neutral"@);
        assert(y1 =~= y0 + seq!['-'] + "neutral"@);
        assert(join(words(y0)) + seq!['-'] + "neutral"@ =~= join(words(y0)) + "-neutral"@);
    } else {
        assert(y1 =~= y0);
        assert(join(words(y0)) + seq![] =~= join(words(y0)));
    }
    assert(join(words(y1)) == short + "-"@ + palette + neutral);
    lemma_normalized_part(y1, "lambda"@, "-lambda-"@, lambda, palette_name_only);
    let y2 = y1 + optional_part("-lambda-"@, lambda, palette_name_only);
    lemma_normalized_part(y2, "mix"@, "-mix-"@, mix, palette_name_only);
    let y3 = y2 + optional_part("-mix-"@, mix, palette_name_only);
    assert(y3 == output_stem(stem, palette, neutral_only, lambda, mix, palette_name_only));
    assert(join(words(y3)) == output_stem(
        short,
        palette,
        neutral_only,
        normalized_value(lambda),
        normalized_value(mix),
        palette_name_only,
    ));
    lemma_output_stem_recognized(
        short,
        format,
        palette,
        neutral_only,
        normalized_value(lambda),
        normalized_value(mix),
        palette_name_only,
    );
}

/// `p` occurs somewhere in `s`.
pub open spec fn contains_text(s: Seq<char>, p: Seq<char>) -> bool {
    exists|j: int| occurs_at(s, p, j)
}

/// `s` holds `mix` or `lambda`, in any ASCII letter case.
pub open spec fn names_a_marker(s: Seq<char>) -> bool {
    contains_text(lower_all(s), "mix"@) || contains_text(lower_all(s), "lambda"@)
}

/// A number as the command writes lambda and mix values: digits and
/// decimal points, with at least one digit.
pub open spec fn is_number_text(v: Seq<char>) -> bool {
    &&& exists|i: int| 0 <= i < v.len() && '0' <= #[trigger] v[i] && v[i] <= '9'
    &&& forall|i: int| 0 <= i < v.len() ==> is_number_char(#[trigger] v[i])
}

/// No character of `v` is a lowercase ASCII letter.
pub open spec fn letter_free(v: Seq<char>) -> bool {
    forall|i: int| 0 <= i < v.len() ==> !('a' <= #[trigger] v[i] && v[i] <= 'z')
}

/// A hyphen-free text found in `a-b` is found in `a` or in `b`.
proof fn lemma_split_at_hyphen(a: Seq<char>, b: Seq<char>, w: Seq<char>, j: int)
    requires
        hyphen_free(w),
        w.len() > 0,
        occurs_at(a + seq!['-'] + b, w, j),
    ensures
        occurs_at(a, w, j) || occurs_at(b, w, j - a.len() - 1),
{
    let x = a + seq!['-'] + b;
    if j <= a.len() && a.len() < j + w.len() {
        assert(x.subrange(j, j + w.len())[a.len() - j] == x[a.len() as int]);
        assert(w[a.len() - j] == '-');
    }
    if j + w.len() <= a.len() {
        assert(x.subrange(j, j + w.len()) == a.subrange(j, j + w.len()));
    } else {
        assert(x.subrange(j, j + w.len()) == b.subrange(j - a.len() - 1, j - a.len() - 1 + w.len()));
    }
}

/// A text of lowercase characters found in `s` is found in the lowercased
/// `s`.
proof fn lemma_lowered_occurrence(s: Seq<char>, w: Seq<char>, j: int)
    requires
        forall|k: int| 0 <= k < w.len() ==> lower(#[trigger] w[k]) == w[k],
        occurs_at(s, w, j),
    ensures
        occurs_at(lower_all(s), w, j),
{
    assert(lower_all(s).subrange(j, j + w.len()) =~= w) by {
        assert forall|k: int| 0 <= k < w.len() implies lower_all(s).subrange(j, j + w.len())[k]
            == w[k] by {
            assert(s.subrange(j, j + w.len())[k] == w[k]);
        }
    }
}

proof fn lemma_marker_words()
    ensures
        hyphen_free("mix"@),
        hyphen_free("lambda"@),
        "mix"@.len() == 3,
        "lambda"@.len() == 6,
        "mix"@[0] == 'm',
        "lambda"@[0] == 'l',
        forall|k: int| 0 <= k < 3 ==> lower(#[trigger] "mix"@[k]) == "mix"@[k],
        forall|k: int| 0 <= k < 6 ==> lower(#[trigger] "lambda"@[k]) == "lambda"@[k],
        !contains_text("neutral"@, "mix"@),
        !contains_text("neutral"@, "lambda"@),
        !contains_text("lambda"@, "mix"@),
{
    reveal_strlit("mix");
    reveal_strlit("lambda");
    reveal_strlit("neutral");
    assert forall|j: int| !occurs_at("neutral"@, "mix"@, j) by {
        if occurs_at("neutral"@, "mix"@, j) {
            assert("neutral"@.subrange(j, j + 3)[0] == "mix"@[0]);
        }
    }
    assert forall|j: int| !occurs_at("neutral"@, "lambda"@, j) by {
        if occurs_at("neutral"@, "lambda"@, j) {
            assert("neutral"@.subrange(j, j + 6)[0] == "lambda"@[0]);
        }
    }
    assert forall|j: int| !occurs_at("lambda"@, "mix"@, j) by {
        if occurs_at("lambda"@, "mix"@, j) {
            assert("lambda"@.subrange(j, j + 3)[0] == "mix"@[0]);
            assert("lambda"@.subrange(j, j + 3)[1] == "mix"@[1]);
        }
    }
}

/// A text starting with a lowercase letter is not found in a letter-free
/// text.
proof fn lemma_letter_free_absent(v: Seq<char>, w: Seq<char>)
    requires
        letter_free(v),
        w.len() > 0,
        'a' <= w[0] && w[0] <= 'z',
    ensures
        !contains_text(v, w),
{
    assert forall|j: int| !occurs_at(v, w, j) by {
        if occurs_at(v, w, j) {
            assert(v.subrange(j, j + w.len())[0] == v[j]);
        }
    }
}

/// `w`, hyphen-free, is in none of `a` and `b`, so not in `a-b`.
proof fn lemma_absent_around_hyphen(a: Seq<char>, b: Seq<char>, w: Seq<char>)
    requires
        hyphen_free(w),
        w.len() > 0,
        !contains_text(a, w),
        !contains_text(b, w),
    ensures
        !contains_text(a + seq!['-'] + b, w),
{
    assert forall|j: int| !occurs_at(a + seq!['-'] + b, w, j) by {
        if occurs_at(a + seq!['-'] + b, w, j) {
            lemma_split_at_hyphen(a, b, w, j);
        }
    }
}

/// A marker `-w-` occurs only where `w` does.
proof fn lemma_marker_needs_word(s: Seq<char>, w: Seq<char>, marker: Seq<char>)
    requires
        marker == seq!['-'] + w + seq!['-'],
        !contains_text(s, w),
    ensures
        !contains_text(s, marker),
{
    assert forall|j: int| !occurs_at(s, marker, j) by {
        if occurs_at(s, marker, j) {
            assert(s.subrange(j + 1, j + 1 + w.len()) =~= s.subrange(j, j + marker.len()).subrange(
                1,
                1 + w.len() as int,
            ));
            assert(marker.subrange(1, 1 + w.len() as int) =~= w);
            assert(occurs_at(s, w, j + 1));
        }
    }
}

/// A marker `-w-` is found in `-w-` followed by a letter-free text only at
/// the start.
proof fn lemma_marker_once(w: Seq<char>, marker: Seq<char>, v: Seq<char>)
    requires
        marker == seq!['-'] + w + seq!['-'],
        w.len() > 1,
        'a' <= w[0] && w[0] <= 'z',
        forall|k: int| 1 <= k < w.len() ==> #[trigger] w[k] != w[0],
        letter_free(v),
    ensures
        marker_only_at_start(marker, v),
{
    let x = marker + v;
    assert forall|j: int| j > 0 implies !occurs_at(x, marker, j) by {
        if occurs_at(x, marker, j) {
            assert(x.subrange(j, j + marker.len())[1] == marker[1]);
            assert(marker[1] == w[0]);
            assert(x[j + 1] == w[0]);
            if j + 1 < marker.len() {
                assert(x[j + 1] == marker[j + 1]);
                if j + 1 < marker.len() - 1 {
                    assert(marker[j + 1] == w[j]);
                }
            } else {
                assert(x[j + 1] == v[j + 1 - marker.len()]);
            }
        }
    }
}

/// The conditions of `rerun_safe` hold when neither the stem nor the palette
/// name holds `mix` or `lambda` and the lambda and mix texts have no
/// lowercase letters.
proof fn lemma_rerun_safe(
    stem: Seq<char>,
    palette: Seq<char>,
    neutral_only: bool,
    lambda: Option<Seq<char>>,
    mix: Option<Seq<char>>,
    palette_name_only: bool,
)
    requires
        !contains_text(stem, "mix"@),
        !contains_text(stem, "lambda"@),
        !contains_text(palette, "mix"@),
        !contains_text(palette, "lambda"@),
        lambda matches Some(l) ==> letter_free(l),
        mix matches Some(m) ==> letter_free(m),
    ensures
        rerun_safe(stem, palette, neutral_only, lambda, mix, palette_name_only),
{
    lemma_marker_literals();
    lemma_marker_words();
    reveal_strlit("mix");
    reveal_strlit("lambda");
    if let Some(l) = lambda {
        lemma_marker_once("lambda"@, "-lambda-"@, l);
    }
    if let Some(m) = mix {
        lemma_marker_once("mix"@, "-mix-"@, m);
    }
    let neutral = if neutral_only && !palette_name_only {
        "-neutral"@
    } else {
        seq![]
    };
    let front = stem + "-"@ + palette;
    let base = front + neutral;
    lemma_absent_around_hyphen(stem, palette, "mix"@);
    lemma_absent_around_hyphen(stem, palette, "lambda"@);
    if neutral_only && !palette_name_only {
        assert(base =~= front + seq!['-'] + "neutral"@);
        lemma_absent_around_hyphen(front, "neutral"@, "mix"@);
        lemma_absent_around_hyphen(front, "neutral"@, "lambda"@);
    } else {
        assert(base =~= front);
    }
    lemma_marker_needs_word(base, "lambda"@, "-lambda-"@);
    let tail = optional_part("-lambda-"@, lambda, palette_name_only);
    if lambda is Some && !palette_name_only {
        let l = lambda->0;
        lemma_letter_free_absent(l, "mix"@);
        lemma_absent_around_hyphen("lambda"@, l, "mix"@);
        assert(base + tail =~= base + seq!['-'] + ("lambda"@ + seq!['-'] + l));
        lemma_absent_around_hyphen(base, "lambda"@ + seq!['-'] + l, "mix"@);
    } else {
        assert(base + tail =~= base);
    }
    lemma_marker_needs_word(base + tail, "mix"@, "-mix-"@);
}

/// A number text has no lowercase letters, and neither has its
/// normalisation, which has words.
proof fn lemma_number_text(v: Seq<char>)
    requires
        is_number_text(v),
    ensures
        letter_free(v),
        words(v).len() > 0,
        letter_free(join(words(v))),
{
    lemma_number_words(v);
    lemma_words_wf(v);
    let i = choose|i: int| 0 <= i < v.len() && '0' <= #[trigger] v[i] && v[i] <= '9';
    assert(is_word_char(v[i]));
    assert forall|i: int| 0 <= i < v.len() implies !('a' <= #[trigger] v[i] && v[i] <= 'z') by {
        assert(is_number_char(v[i]));
    }
    let j = join(words(v));
    assert forall|k: int| 0 <= k < j.len() implies !('a' <= #[trigger] j[k] && j[k] <= 'z') by {
        let x = j[k];
        assert(('0' <= x && x <= '9') || x == '-');
    }
}

/// A text whose lowercasing holds neither `mix` nor `lambda` holds neither
/// of them.
proof fn lemma_no_marker_words(s: Seq<char>)
    requires
        !names_a_marker(s),
    ensures
        !contains_text(s, "mix"@),
        !contains_text(s, "lambda"@),
{
    lemma_marker_words();
    assert forall|j: int| !occurs_at(s, "mix"@, j) by {
        if occurs_at(s, "mix"@, j) {
            lemma_lowered_occurrence(s, "mix"@, j);
        }
    }
    assert forall|j: int| !occurs_at(s, "lambda"@, j) by {
        if occurs_at(s, "lambda"@, j) {
            lemma_lowered_occurrence(s, "lambda"@, j);
        }
    }
}

/// The rerun law for an input's file name `name`.
proof fn lemma_names_skipped_on_rerun(
    name: Seq<char>,
    normalize_name: bool,
    format: OutputFormat,
    palette: Seq<char>,
    neutral_only: bool,
    lambda: Option<Seq<char>>,
    mix: Option<Seq<char>>,
    palette_name_only: bool,
)
    requires
        !names_a_marker(file_stem(name)),
        !names_a_marker(palette),
        lambda matches Some(l) ==> is_number_text(l),
        mix matches Some(m) ==> is_number_text(m),
        normalize_name ==> is_normalized_name(palette),
        normalize_name ==> exists|i: int|
            0 <= i < file_stem(name).len() && is_word_char(#[trigger] file_stem(name)[i]),
    ensures
        output_name_spec(
            name,
            normalize_name,
            format,
            palette,
            neutral_only,
            lambda,
            mix,
            palette_name_only,
        ) matches Ok(out) ==> already_recolored_spec(out, palette),
{
    let stem = file_stem(name);
    lemma_no_marker_words(stem);
    lemma_no_marker_words(palette);
    if let Some(l) = lambda {
        lemma_number_text(l);
    }
    if let Some(m) = mix {
        lemma_number_text(m);
    }
    if normalize_name {
        lemma_words_wf(stem);
        lemma_marker_words();
        let short = join(words(stem));
        assert forall|j: int| !occurs_at(short, "mix"@, j) by {
            if occurs_at(short, "mix"@, j) {
                lemma_words_windows(stem, "mix"@, j);
            }
        }
        assert forall|j: int| !occurs_at(short, "lambda"@, j) by {
            if occurs_at(short, "lambda"@, j) {
                lemma_words_windows(stem, "lambda"@, j);
            }
        }
        lemma_rerun_safe(
            short,
            palette,
            neutral_only,
            normalized_value(lambda),
            normalized_value(mix),
            palette_name_only,
        );
        law_normalized_outputs_are_recognized(
            name,
            format,
            palette,
            neutral_only,
            lambda,
            mix,
            palette_name_only,
        );
    } else {
        lemma_rerun_safe(stem, palette, neutral_only, lambda, mix, palette_name_only);
        law_outputs_are_recognized(
            name,
            format,
            palette,
            neutral_only,
            lambda,
            mix,
            palette_name_only,
        );
    }
}

/// No character of `s` is a slash.
pub open spec fn slash_free(s: Seq<char>) -> bool {
    forall|i: int| 0 <= i < s.len() ==> #[trigger] s[i] != '/'
}

proof fn lemma_slash_free_concat(a: Seq<char>, b: Seq<char>)
    requires
        slash_free(a),
        slash_free(b),
    ensures
        slash_free(a + b),
{
    assert forall|i: int| 0 <= i < (a + b).len() implies #[trigger] (a + b)[i] != '/' by {
        if i < a.len() {
            assert((a + b)[i] == a[i]);
        } else {
            assert((a + b)[i] == b[i - a.len()]);
        }
    }
}

/// A file name taken from a path is a single component: no slash, not
/// empty, not `.` or `..`.
proof fn lemma_file_name_shape(path: Seq<char>)
    ensures
        path_file_name(path) matches Some(n) ==> {
            &&& slash_free(n)
            &&& n.len() > 0
            &&& n != seq!['.']
            &&& n != seq!['.', '.']
        },
    decreases path.len(),
{
    lemma_last_occurrence(path, seq!['/']);
    match last_occurrence(path, seq!['/']) {
        Some(i) => {
            let segment = path.subrange(i + 1, path.len() as int);
            if segment.len() == 0 || segment == seq!['.'] {
                lemma_file_name_shape(path.subrange(0, i));
            } else {
                assert forall|k: int| 0 <= k < segment.len() implies #[trigger] segment[k]
                    != '/' by {
                    if segment[k] == '/' {
                        assert(path.subrange(i + 1 + k, i + 2 + k) =~= seq!['/']);
                        assert(occurs_at(path, seq!['/'], i + 1 + k));
                    }
                }
            }
        },
        None => {
            assert forall|k: int| 0 <= k < path.len() implies #[trigger] path[k] != '/' by {
                if path[k] == '/' {
                    assert(path.subrange(k, k + 1) =~= seq!['/']);
                    assert(occurs_at(path, seq!['/'], k));
                }
            }
        },
    }
}

/// A single component is its own file name.
proof fn lemma_plain_name(name: Seq<char>)
    requires
        slash_free(name),
        name.len() > 0,
        name != seq!['.'],
        name != seq!['.', '.'],
    ensures
        path_file_name(name) == Some(name),
{
    assert forall|j: int| !occurs_at(name, seq!['/'], j) by {
        if occurs_at(name, seq!['/'], j) {
            assert(name.subrange(j, j + 1)[0] == name[j]);
        }
    }
}

proof fn lemma_extension_plain(format: OutputFormat)
    ensures
        slash_free(extension_spec(format)),
        extension_spec(format).len() > 0,
        extension_spec(format).last() != '.',
{
    reveal_strlit("png");
    reveal_strlit("webp");
    reveal_strlit("jpg");
    match format {
        OutputFormat::Png => {},
        OutputFormat::Webp => {},
        OutputFormat::Jpg => {},
    }
}

/// `x` followed by a dot and an extension is a single component.
proof fn lemma_dotted_plain(x: Seq<char>, format: OutputFormat)
    requires
        slash_free(x),
    ensures
        path_file_name(x + "."@ + extension_spec(format)) == Some(x + "."@ + extension_spec(format)),
{
    let ext = extension_spec(format);
    lemma_extension_plain(format);
    reveal_strlit(".");
    assert(slash_free("."@));
    lemma_slash_free_concat(x, "."@);
    lemma_slash_free_concat(x + "."@, ext);
    let full = x + "."@ + ext;
    assert(full.last() == ext.last());
    assert(seq!['.'].last() == '.');
    assert(seq!['.', '.'].last() == '.');
    lemma_plain_name(full);
}

/// A number text has no slash.
proof fn lemma_number_slash_free(v: Seq<char>)
    requires
        is_number_text(v),
    ensures
        slash_free(v),
{
    assert forall|i: int| 0 <= i < v.len() implies #[trigger] v[i] != '/' by {
        assert(is_number_char(v[i]));
    }
}

proof fn lemma_part_slash_free(marker: Seq<char>, value: Option<Seq<char>>, omitted: bool)
    requires
        slash_free(marker),
        value matches Some(v) ==> is_number_text(v),
    ensures
        slash_free(optional_part(marker, value, omitted)),
{
    if let Some(v) = value {
        lemma_number_slash_free(v);
        lemma_slash_free_concat(marker, v);
    }
}

/// The output stem of a slash-free stem has no slash.
proof fn lemma_output_stem_slash_free(
    stem: Seq<char>,
    palette: Seq<char>,
    neutral_only: bool,
    lambda: Option<Seq<char>>,
    mix: Option<Seq<char>>,
    palette_name_only: bool,
)
    requires
        slash_free(stem),
        slash_free(palette),
        lambda matches Some(l) ==> is_number_text(l),
        mix matches Some(m) ==> is_number_text(m),
    ensures
        slash_free(output_stem(stem, palette, neutral_only, lambda, mix, palette_name_only)),
{
    reveal_strlit("-");
    reveal_strlit("-neutral");
    reveal_strlit("-lambda-");
    reveal_strlit("-mix-");
    let neutral = if neutral_only && !palette_name_only {
        "-neutral"@
    } else {
        seq![]
    };
    assert(slash_free("-"@));
    assert(slash_free(neutral));
    assert(slash_free("-lambda-"@));
    assert(slash_free("-mix-"@));
    let lambda_part = optional_part("-lambda-"@, lambda, palette_name_only);
    let mix_part = optional_part("-mix-"@, mix, palette_name_only);
    lemma_part_slash_free("-lambda-"@, lambda, palette_name_only);
    lemma_part_slash_free("-mix-"@, mix, palette_name_only);
    lemma_slash_free_concat(stem, "-"@);
    lemma_slash_free_concat(stem + "-"@, palette);
    lemma_slash_free_concat(stem + "-"@ + palette, neutral);
    lemma_slash_free_concat(stem + "-"@ + palette + neutral, lambda_part);
    lemma_slash_free_concat(stem + "-"@ + palette + neutral + lambda_part, mix_part);
}

proof fn lemma_stem_slash_free(name: Seq<char>)
    requires
        slash_free(name),
    ensures
        slash_free(file_stem(name)),
{
    lemma_last_occurrence(name, seq!['.']);
    let stem = file_stem(name);
    assert(stem.len() <= name.len());
    assert forall|i: int| 0 <= i < stem.len() implies #[trigger] stem[i] != '/' by {
        assert(stem[i] == name[i]);
    }
}

proof fn lemma_name_slash_free(n: Seq<char>)
    requires
        is_normalized_name(n),
    ensures
        slash_free(n),
{
    assert forall|i: int| 0 <= i < n.len() implies #[trigger] n[i] != '/' by {
        assert(is_name_char(n[i]));
    }
}

/// An output name is a single component, so it is its own file name.
proof fn lemma_output_is_plain(
    name: Seq<char>,
    normalize_name: bool,
    format: OutputFormat,
    palette: Seq<char>,
    neutral_only: bool,
    lambda: Option<Seq<char>>,
    mix: Option<Seq<char>>,
    palette_name_only: bool,
)
    requires
        slash_free(name),
        is_normalized_name(palette),
        lambda matches Some(l) ==> is_number_text(l),
        mix matches Some(m) ==> is_number_text(m),
    ensures
        output_name_spec(
            name,
            normalize_name,
            format,
            palette,
            neutral_only,
            lambda,
            mix,
            palette_name_only,
        ) matches Ok(out) ==> path_file_name(out) == Some(out),
{
    let stem = file_stem(name);
    let x = output_stem(stem, palette, neutral_only, lambda, mix, palette_name_only);
    let ext = extension_spec(format);
    let result = output_name_spec(
        name,
        normalize_name,
        format,
        palette,
        neutral_only,
        lambda,
        mix,
        palette_name_only,
    );
    if normalize_name {
        law_normalized_is_name(x);
        if let Ok(n) = normalized_spec(x) {
            assert(result == Ok::<Seq<char>, Seq<char>>(n + "."@ + ext));
            lemma_name_slash_free(n);
            lemma_dotted_plain(n, format);
        }
    } else {
        assert(result == Ok::<Seq<char>, Seq<char>>(x + "."@ + ext));
        lemma_stem_slash_free(name);
        lemma_name_slash_free(palette);
        lemma_output_stem_slash_free(stem, palette, neutral_only, lambda, mix, palette_name_only);
        lemma_dotted_plain(x, format);
    }
}

/// Every output this command writes is skipped when the command runs again
/// with the same palette: `already_recolored` recognises the output's name,
/// as long as the palette's name is made of `a-z`, `0-9` and single hyphens,
/// neither the stem of the input's file name nor the palette's name holds
/// `mix` or `lambda` (in any letter case), and lambda and mix are written as
/// numbers (digits and points); with normalisation, for an input stem with a
/// letter or digit.
pub proof fn law_outputs_skipped_on_rerun(
    path: Seq<char>,
    normalize_name: bool,
    format: OutputFormat,
    palette: Seq<char>,
    neutral_only: bool,
    lambda: Option<Seq<char>>,
    mix: Option<Seq<char>>,
    palette_name_only: bool,
)
    requires
        is_normalized_name(palette),
        !names_a_marker(file_stem(path_file_name(path)->0)),
        !names_a_marker(palette),
        lambda matches Some(l) ==> is_number_text(l),
        mix matches Some(m) ==> is_number_text(m),
        normalize_name ==> exists|i: int|
            0 <= i < file_stem(path_file_name(path)->0).len() && is_word_char(
                #[trigger] file_stem(path_file_name(path)->0)[i],
            ),
    ensures
        path_output_name(
            path,
            normalize_name,
            format,
            palette,
            neutral_only,
            lambda,
            mix,
            palette_name_only,
        ) matches Ok(out) ==> path_recolored(out, palette),
{
    if let Some(name) = path_file_name(path) {
        lemma_file_name_shape(path);
        lemma_names_skipped_on_rerun(
            name,
            normalize_name,
            format,
            palette,
            neutral_only,
            lambda,
            mix,
            palette_name_only,
        );
        lemma_output_is_plain(
            name,
            normalize_name,
            format,
            palette,
            neutral_only,
            lambda,
            mix,
            palette_name_only,
        );
    }
}

proof fn lemma_lower_idempotent(s: Seq<char>)
    ensures
        lower_all(lower_all(s)) == lower_all(s),
{
    assert forall|i: int| 0 <= i < s.len() implies lower(#[trigger] lower_all(s)[i]) == lower_all(
        s,
    )[i] by {
        let c = s[i];
        if 'A' <= c && c <= 'Z' {
            assert('a' <= lower(c) && lower(c) <= 'z');
        }
    }
    assert(lower_all(lower_all(s)) =~= lower_all(s));
}

/// Whether an extension is that of an image does not depend on the ASCII
/// letter case it is written in.
pub proof fn law_image_extension_ignores_case(extension: Seq<char>)
    ensures
        is_image_extension(extension) == is_image_extension(lower_all(extension)),
{
    lemma_lower_idempotent(extension);
}

/// `png`, `jpg`, `jpeg` and `webp` are image extensions, in lower or upper
/// case, and `gif` is not.
pub proof fn law_image_extensions()
    ensures
        is_image_extension("png"@),
        is_image_extension("jpg"@),
        is_image_extension("jpeg"@),
        is_image_extension("webp"@),
        is_image_extension("PNG"@),
        is_image_extension("JPG"@),
        is_image_extension("JPEG"@),
        is_image_extension("WEBP"@),
        !is_image_extension("gif"@),
{
    reveal_strlit("png");
    reveal_strlit("jpg");
    reveal_strlit("jpeg");
    reveal_strlit("webp");
    reveal_strlit("PNG");
    reveal_strlit("JPG");
    reveal_strlit("JPEG");
    reveal_strlit("WEBP");
    reveal_strlit("gif");
    assert(lower_all("png"@) =~= "png"@);
    assert(lower_all("jpg"@) =~= "jpg"@);
    assert(lower_all("jpeg"@) =~= "jpeg"@);
    assert(lower_all("webp"@) =~= "webp"@);
    assert(lower_all("PNG"@) =~= "png"@);
    assert(lower_all("JPG"@) =~= "jpg"@);
    assert(lower_all("JPEG"@) =~= "jpeg"@);
    assert(lower_all("WEBP"@) =~= "webp"@);
    assert(lower_all("gif"@) =~= "gif"@);
    assert(lower_all("gif"@)[0] != "png"@[0]);
    assert(lower_all("gif"@)[0] != "jpg"@[0]);
    assert(lower_all("gif"@).len() != "jpeg"@.len());
}

/// `a` is never directly followed by `b` in `s`.
pub open spec fn no_pair(s: Seq<char>, a: char, b: char) -> bool
    decreases s.len(),
{
    s.len() < 2 || ((s[0] != a || s[1] != b) && no_pair(s.drop_first(), a, b))
}

proof fn lemma_no_pair(s: Seq<char>, a: char, b: char)
    requires
        no_pair(s, a, b),
    ensures
        forall|j: int| 0 <= j < s.len() - 1 ==> !(#[trigger] s[j] == a && s[j + 1] == b),
    decreases s.len(),
{
    if s.len() >= 2 {
        let rest = s.drop_first();
        lemma_no_pair(rest, a, b);
        assert forall|j: int| 0 <= j < s.len() - 1 implies !(#[trigger] s[j] == a && s[j + 1]
            == b) by {
            if j > 0 {
                assert(s[j] == rest[j - 1] && s[j + 1] == rest[j]);
            }
        }
    }
}

/// A text in which two neighbouring characters of `w` never stand side by
/// side does not contain `w`.
proof fn lemma_pair_blocks(s: Seq<char>, w: Seq<char>, k: int)
    requires
        0 <= k,
        k + 1 < w.len(),
        no_pair(s, w[k], w[k + 1]),
    ensures
        !contains_text(s, w),
{
    lemma_no_pair(s, w[k], w[k + 1]);
    assert forall|j: int| !occurs_at(s, w, j) by {
        if occurs_at(s, w, j) {
            assert(s.subrange(j, j + w.len())[k] == s[j + k]);
            assert(s.subrange(j, j + w.len())[k + 1] == s[j + k + 1]);
        }
    }
}

/// Neither `mix` nor `lambda` occurs in `s` when `m` is never followed by
/// `i` and `a` never by `m`.
proof fn lemma_free_of_marker_words(s: Seq<char>)
    requires
        no_pair(s, 'm', 'i'),
        no_pair(s, 'a', 'm'),
    ensures
        !contains_text(s, "mix"@),
        !contains_text(s, "lambda"@),
{
    reveal_strlit("mix");
    reveal_strlit("lambda");
    lemma_pair_blocks(s, "mix"@, 0);
    lemma_pair_blocks(s, "lambda"@, 1);
}

/// No built-in palette name, and neither `accent` nor `neutral`, holds
/// `mix` or `lambda`.
proof fn lemma_names_free_of_marker_words(theme: Theme)
    ensures
        !contains_text(theme_name(theme), "mix"@),
        !contains_text(theme_name(theme), "lambda"@),
        !contains_text("accent"@, "mix"@),
        !contains_text("accent"@, "lambda"@),
        !contains_text("neutral"@, "mix"@),
        !contains_text("neutral"@, "lambda"@),
{
    reveal_strlit("everforest-dark-medium");
    reveal_strlit("catppuccin-mocha");
    reveal_strlit("tokyo-night");
    reveal_strlit("gruvbox-dark-medium");
    reveal_strlit("nord");
    reveal_strlit("dracula");
    reveal_strlit("rose-pine-moon");
    reveal_strlit("accent");
    reveal_strlit("neutral");
    reveal_with_fuel(no_pair, 23);
    lemma_free_of_marker_words(theme_name(theme));
    lemma_free_of_marker_words("accent"@);
    lemma_free_of_marker_words("neutral"@);
}

/// An output suffix: nothing, `-accent` or `-neutral`.
pub open spec fn is_output_suffix(suffix: Seq<char>) -> bool {
    suffix == Seq::<char>::empty() || suffix == "-accent"@ || suffix == "-neutral"@
}

/// A stem that is `s`, a hyphen, the name `name` and an output suffix is
/// left whole by dropping mix and lambda parts, and it carries `name`.
proof fn lemma_marked_stem(s: Seq<char>, name: Seq<char>, suffix: Seq<char>)
    requires
        !contains_text(s, "mix"@),
        !contains_text(s, "lambda"@),
        !contains_text(name, "mix"@),
        !contains_text(name, "lambda"@),
        is_output_suffix(suffix),
    ensures
        stem_base(s + "-"@ + name + suffix) == s + "-"@ + name + suffix,
        carries_palette(s + "-"@ + name + suffix, name),
{
    lemma_marker_literals();
    lemma_marker_words();
    lemma_names_free_of_marker_words(Theme::Nord);
    reveal_strlit("-accent");
    reveal_strlit("accent");
    let front = s + "-"@ + name;
    let x = front + suffix;
    lemma_absent_around_hyphen(s, name, "mix"@);
    lemma_absent_around_hyphen(s, name, "lambda"@);
    if suffix == "-accent"@ {
        assert("-accent"@ =~= seq!['-'] + "accent"@);
        assert(x =~= front + seq!['-'] + "accent"@);
        lemma_absent_around_hyphen(front, "accent"@, "mix"@);
        lemma_absent_around_hyphen(front, "accent"@, "lambda"@);
    } else if suffix == "-neutral"@ {
        assert(x =~= front + seq!['-'] + "neutral"@);
        lemma_absent_around_hyphen(front, "neutral"@, "mix"@);
        lemma_absent_around_hyphen(front, "neutral"@, "lambda"@);
    } else {
        assert(x =~= front);
    }
    lemma_marker_needs_word(x, "mix"@, "-mix-"@);
    lemma_marker_needs_word(x, "lambda"@, "-lambda-"@);
    lemma_strip_absent(x, "-mix-"@);
    lemma_strip_absent(x, "-lambda-"@);
    lemma_ends_with_suffix(s, "-"@ + name + suffix);
    assert(x =~= s + ("-"@ + name + suffix));
    if suffix == Seq::<char>::empty() {
        assert("-"@ + name + suffix =~= "-"@ + name);
    }
}

/// An output of any built-in palette is recognised as an earlier output,
/// whatever palette the run uses: a stem made of `s`, a hyphen, the
/// palette's name and nothing, `-accent` or `-neutral`, where `s` holds
/// neither `mix` nor `lambda` (in any letter case).
pub proof fn law_theme_outputs_recognized(
    s: Seq<char>,
    theme: Theme,
    suffix: Seq<char>,
    palette: Seq<char>,
)
    requires
        !names_a_marker(s),
        is_output_suffix(suffix),
    ensures
        stem_recolored(s + "-"@ + theme_name(theme) + suffix, palette),
{
    lemma_no_marker_words(s);
    lemma_names_free_of_marker_words(theme);
    lemma_marked_stem(s, theme_name(theme), suffix);
}

/// An output of the run's own palette is recognised as an earlier output:
/// a stem made of `s`, a hyphen, the palette's name and nothing, `-accent`
/// or `-neutral`, where neither `s` nor the palette's name holds `mix` or
/// `lambda` (in any letter case).
pub proof fn law_palette_outputs_recognized(s: Seq<char>, suffix: Seq<char>, palette: Seq<char>)
    requires
        !names_a_marker(s),
        !names_a_marker(palette),
        is_output_suffix(suffix),
    ensures
        stem_recolored(s + "-"@ + palette + suffix, palette),
{
    lemma_no_marker_words(s);
    lemma_no_marker_words(palette);
    lemma_marked_stem(s, palette, suffix);
}

} // verus!
