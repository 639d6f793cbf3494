//! Image formats of rendered QR codes and the deterministic file names of a
//! batch of INVOICE ITEMS codes (`invoice-items-001.svg`, ...).

use vstd::prelude::*;
use crate::decimal::{digits_value, slice_chars};
use crate::numeral::{is_numeral, lemma_padded_text, padded_chars, padded_text, parse_numeral};
use crate::fields::texts;
use crate::text::{chars_of, same_text, string_from_chars};

verus! {

/// An output image format.
#[derive(Clone, Copy, Debug, PartialEq, Eq, Structural)]
pub enum ImageFormat {
    Svg,
    Png,
    Jpeg,
}

/// The file extension of a format.
pub open spec fn format_extension(f: ImageFormat) -> Seq<char> {
    match f {
        ImageFormat::Svg => "svg"@,
        ImageFormat::Png => "png"@,
        ImageFormat::Jpeg => "jpeg"@,
    }
}

/// ASCII upper-case letters in lower case, everything else unchanged
/// (`str::to_ascii_lowercase`).
pub open spec fn ascii_lower(s: Seq<char>) -> Seq<char> {
    Seq::new(s.len(), |i: int| if 'A' <= s[i] <= 'Z' { ((s[i] as u32) + 32) as char } else { s[i] })
}

/// The format that a name selects, ignoring ASCII case; `jpg` is another
/// name of JPEG.
pub open spec fn format_named(name: Seq<char>) -> Option<ImageFormat> {
    let l = ascii_lower(name);
    if l == "svg"@ {
        Some(ImageFormat::Svg)
    } else if l == "png"@ {
        Some(ImageFormat::Png)
    } else if l == "jpg"@ || l == "jpeg"@ {
        Some(ImageFormat::Jpeg)
    } else {
        None
    }
}

impl ImageFormat {
    /// The file extension of this format.
    pub fn extension(self) -> (r: &'static str)
        ensures
            r@ == format_extension(self),
    {
        match self {
            ImageFormat::Svg => "svg",
            ImageFormat::Png => "png",
            ImageFormat::Jpeg => "jpeg",
        }
    }
}

fn lower_text(s: &str) -> (r: String)
    ensures
        r@ == ascii_lower(s@),
{
    let chars = chars_of(s);
    let mut out: Vec<char> = Vec::new();
    let mut i: usize = 0;
    while i < chars.len()
        invariant
            i <= chars@.len(),
            chars@ == s@,
            out@ == ascii_lower(s@).take(i as int),
        decreases chars.len() - i,
    {
        let c = chars[i];
        let l = if 'A' <= c && c <= 'Z' {
            ((c as u8) + 32) as char
        } else {
            c
        };
        out.push(l);
        i = i + 1;
        assert(out@ =~= ascii_lower(s@).take(i as int));
    }
    assert(out@ =~= ascii_lower(s@));
    string_from_chars(out.as_slice())
}

/// The format a name selects, ignoring ASCII case; see [`format_named`].
pub fn parse_image_format(format: &str) -> (r: Option<ImageFormat>)
    ensures
        r == format_named(format@),
{
    let lower = lower_text(format);
    if same_text(lower.as_str(), "svg") {
        Some(ImageFormat::Svg)
    } else if same_text(lower.as_str(), "png") {
        Some(ImageFormat::Png)
    } else if same_text(lower.as_str(), "jpg") || same_text(lower.as_str(), "jpeg") {
        Some(ImageFormat::Jpeg)
    } else {
        None
    }
}

/// The common beginning of every generated INVOICE ITEMS file name.
pub open spec fn items_prefix() -> Seq<char> {
    "invoice-items-"@
}

/// The file name of the `index`-th code of a batch: its number padded to
/// three digits, then the extension.
pub open spec fn items_output_text(index: nat, extension: Seq<char>) -> Seq<char> {
    items_prefix() + padded_text(index, 3) + seq!['.'] + extension
}

/// The number of the batch file that a name denotes, if it is one: the
/// prefix, a positive number written with exactly the padding that
/// [`items_output_text`] gives it, a point and the extension.
pub open spec fn generated_index(name: Seq<char>, extension: Seq<char>) -> Option<nat> {
    let p = items_prefix();
    let s = seq!['.'] + extension;
    if name.len() >= p.len() + s.len() && name.take(p.len() as int) == p && name.skip(
        name.len() - s.len(),
    ) == s {
        let index = name.subrange(p.len() as int, name.len() - s.len());
        if is_numeral(index) && 0 < digits_value(index) <= usize::MAX && padded_text(
            digits_value(index),
            3,
        ) == index {
            Some(digits_value(index))
        } else {
            None
        }
    } else {
        None
    }
}

/// The file name of the `index`-th code of a batch.
pub fn items_output_name(index: usize, extension: &str) -> (r: String)
    ensures
        r@ == items_output_text(index as nat, extension@),
{
    let mut chars = chars_of("invoice-items-");
    let digits = padded_chars(index as u64, 3);
    let mut i: usize = 0;
    let ghost start = chars@;
    while i < digits.len()
        invariant
            i <= digits@.len(),
            chars@ == start + digits@.take(i as int),
        decreases digits.len() - i,
    {
        chars.push(digits[i]);
        i = i + 1;
        assert(chars@ =~= start + digits@.take(i as int));
    }
    assert(digits@.take(digits@.len() as int) =~= digits@);
    chars.push('.');
    let ext = chars_of(extension);
    let ghost middle = chars@;
    let mut j: usize = 0;
    while j < ext.len()
        invariant
            j <= ext@.len(),
            chars@ == middle + ext@.take(j as int),
        decreases ext.len() - j,
    {
        chars.push(ext[j]);
        j = j + 1;
        assert(chars@ =~= middle + ext@.take(j as int));
    }
    assert(ext@.take(ext@.len() as int) =~= ext@);
    assert(chars@ =~= items_output_text(index as nat, extension@));
    string_from_chars(chars.as_slice())
}

/// Whether a file name is one that a batch of `extension` files writes;
/// see [`generated_index`].
pub fn is_generated_items_output(file_name: &str, extension: &str) -> (r: bool)
    ensures
        r == (generated_index(file_name@, extension@) is Some),
{
    let name = chars_of(file_name);
    let prefix = chars_of("invoice-items-");
    let ext = chars_of(extension);
    let p = prefix.len();
    if ext.len() >= usize::MAX - p || name.len() < p + ext.len() + 1 {
        assert(p == items_prefix().len());
        assert(ext@.len() == extension@.len());
        assert(name@.len() == name.len());
        assert(name@.len() < items_prefix().len() + (seq!['.'] + extension@).len());
        return false;
    }
    let suffix_start = name.len() - (ext.len() + 1);
    let head = string_from_chars(slice_chars(&name, 0, p).as_slice());
    assert(name@.subrange(0, p as int) =~= name@.take(p as int));
    if !same_text(head.as_str(), "invoice-items-") {
        return false;
    }
    let tail = slice_chars(&name, suffix_start, name.len());
    assert(tail@ =~= name@.skip(suffix_start as int));
    let mut dotted: Vec<char> = Vec::new();
    dotted.push('.');
    let mut k: usize = 0;
    while k < ext.len()
        invariant
            k <= ext@.len(),
            dotted@ == seq!['.'] + ext@.take(k as int),
        decreases ext.len() - k,
    {
        dotted.push(ext[k]);
        k = k + 1;
        assert(dotted@ =~= seq!['.'] + ext@.take(k as int));
    }
    assert(ext@.take(ext@.len() as int) =~= ext@);
    let tail_text = string_from_chars(tail.as_slice());
    let dotted_text = string_from_chars(dotted.as_slice());
    if !same_text(tail_text.as_str(), dotted_text.as_str()) {
        return false;
    }
    let index = slice_chars(&name, p, suffix_start);
    let value = match parse_numeral(&index, usize::MAX as u64) {
        Some(v) => v,
        None => return false,
    };
    if value == 0 {
        return false;
    }
    let padded = string_from_chars(padded_chars(value, 3).as_slice());
    let index_text = string_from_chars(index.as_slice());
    same_text(padded.as_str(), index_text.as_str())
}

/// The file names of a batch of `count` codes, numbered from one.
pub open spec fn batch_names(count: nat, extension: Seq<char>) -> Seq<Seq<char>> {
    Seq::new(count, |i: int| items_output_text((i + 1) as nat, extension))
}

/// The first name among `names` that a batch of `extension` files writes.
pub open spec fn first_generated(names: Seq<Seq<char>>, extension: Seq<char>) -> Option<Seq<char>>
    decreases names.len(),
{
    if names.len() == 0 {
        None
    } else if generated_index(names[0], extension) is Some {
        Some(names[0])
    } else {
        first_generated(names.drop_first(), extension)
    }
}

/// The names among `names`, in order, that an earlier batch of `extension`
/// files wrote and a batch of `count` codes does not write again.
pub open spec fn stale_outputs(names: Seq<Seq<char>>, count: nat, extension: Seq<char>) -> Seq<Seq<char>>
    decreases names.len(),
{
    if names.len() == 0 {
        seq![]
    } else {
        let rest = stale_outputs(names.drop_last(), count, extension);
        let n = names.last();
        if generated_index(n, extension) is Some && !batch_names(count, extension).contains(n) {
            rest.push(n)
        } else {
            rest
        }
    }
}

/// After a batch is written over an earlier one, no file of the earlier batch
/// is left over: every name an earlier batch wrote is written again or
/// removed, and only such names are removed.
pub proof fn lemma_batch_replaced(names: Seq<Seq<char>>, count: nat, extension: Seq<char>)
    ensures
        forall|k: int|
            0 <= k < names.len() && generated_index(#[trigger] names[k], extension) is Some ==> batch_names(
                count,
                extension,
            ).contains(names[k]) || stale_outputs(names, count, extension).contains(names[k]),
        forall|j: int|
            0 <= j < stale_outputs(names, count, extension).len() ==> generated_index(
                #[trigger] stale_outputs(names, count, extension)[j],
                extension,
            ) is Some && !batch_names(count, extension).contains(stale_outputs(names, count, extension)[j]),
    decreases names.len(),
{
    if names.len() > 0 {
        let init = names.drop_last();
        lemma_batch_replaced(init, count, extension);
        let rest = stale_outputs(init, count, extension);
        let all = stale_outputs(names, count, extension);
        assert forall|k: int|
            0 <= k < names.len() && generated_index(#[trigger] names[k], extension) is Some implies batch_names(
                count,
                extension,
            ).contains(names[k]) || all.contains(names[k]) by {
            if k < init.len() {
                assert(names[k] == init[k]);
                if rest.contains(names[k]) {
                    let j = choose|j: int| 0 <= j < rest.len() && rest[j] == names[k];
                    assert(all[j] == rest[j]);
                }
            } else if !batch_names(count, extension).contains(names[k]) {
                assert(all[all.len() - 1] == names[k]);
            }
        }
        assert forall|j: int| 0 <= j < all.len() implies generated_index(#[trigger] all[j], extension) is Some
            && !batch_names(count, extension).contains(all[j]) by {
            if j < rest.len() {
                assert(all[j] == rest[j]);
            }
        }
    }
}

/// Where a batch of codes goes: the names to write, in order, and the names
/// of an earlier batch to remove.
pub struct ItemsOutputPlan {
    pub destinations: Vec<String>,
    pub stale: Vec<String>,
}

/// The first of `names` that a batch of `extension` files writes, if any.
fn find_generated(names: &[String], extension: &str) -> (r: Option<String>)
    ensures
        r matches Some(n) ==> first_generated(texts(names@), extension@) == Some(n@),
        r is None ==> first_generated(texts(names@), extension@) is None,
{
    let mut i: usize = names.len();
    let mut found: Option<String> = None;
    assert(texts(names@).skip(names@.len() as int) =~= Seq::<Seq<char>>::empty());
    while i > 0
        invariant
            i <= names@.len(),
            match found {
                Some(n) => first_generated(texts(names@).skip(i as int), extension@) == Some(n@),
                None => first_generated(texts(names@).skip(i as int), extension@) is None,
            },
        decreases i,
    {
        i = i - 1;
        let ghost rest = texts(names@).skip(i as int);
        assert(rest.drop_first() =~= texts(names@).skip(i + 1));
        assert(rest[0] == names@[i as int]@);
        if is_generated_items_output(names[i].as_str(), extension) {
            found = Some(names[i].clone());
        }
    }
    assert(texts(names@).skip(0) =~= texts(names@));
    found
}

/// Plans writing a batch of `count` codes into a directory whose entries are
/// named `names`: the names `invoice-items-001.<extension>` onwards to write,
/// and the names an earlier batch wrote that this one does not, to remove.
/// Unless `overwrite` is set, the first name of an earlier batch is returned
/// as an error and nothing is planned.
pub fn plan_items_outputs(count: usize, extension: &str, names: &[String], overwrite: bool) -> (r: core::result::Result<
    ItemsOutputPlan,
    String,
>)
    ensures
        !overwrite && first_generated(texts(names@), extension@) is Some ==> (r matches Err(n) && Some(n@)
            == first_generated(texts(names@), extension@)),
        overwrite || first_generated(texts(names@), extension@) is None ==> (r matches Ok(plan) && texts(
            plan.destinations@,
        ) == batch_names(count as nat, extension@) && texts(plan.stale@) == stale_outputs(
            texts(names@),
            count as nat,
            extension@,
        )),
{
    if !overwrite {
        match find_generated(names, extension) {
            Some(n) => return Err(n),
            None => {},
        }
    }
    let mut destinations: Vec<String> = Vec::new();
    let mut k: usize = 0;
    while k < count
        invariant
            k <= count,
            texts(destinations@) == batch_names(k as nat, extension@),
        decreases count - k,
    {
        let name = items_output_name(k + 1, extension);
        let ghost before = texts(destinations@);
        destinations.push(name);
        assert(texts(destinations@) =~= before.push(name@));
        assert(batch_names((k + 1) as nat, extension@) =~= batch_names(k as nat, extension@).push(
            items_output_text((k + 1) as nat, extension@),
        ));
        k = k + 1;
    }
    let mut stale: Vec<String> = Vec::new();
    let mut i: usize = 0;
    while i < names.len()
        invariant
            i <= names@.len(),
            texts(destinations@) == batch_names(count as nat, extension@),
            texts(stale@) == stale_outputs(texts(names@).take(i as int), count as nat, extension@),
        decreases names.len() - i,
    {
        let ghost prior = texts(names@).take(i as int);
        assert(texts(names@).take(i + 1).drop_last() =~= prior);
        assert(texts(names@).take(i + 1).last() == names@[i as int]@);
        if is_generated_items_output(names[i].as_str(), extension) {
            let mut listed = false;
            let mut j: usize = 0;
            while j < destinations.len()
                invariant
                    j <= destinations@.len(),
                    i < names@.len(),
                    listed == exists|m: int| 0 <= m < j && texts(destinations@)[m] == names@[i as int]@,
                decreases destinations.len() - j,
            {
                assert(texts(destinations@)[j as int] == destinations@[j as int]@);
                if same_text(destinations[j].as_str(), names[i].as_str()) {
                    listed = true;
                }
                j = j + 1;
            }
            proof {
                let t = texts(destinations@);
                if listed {
                    let m = choose|m: int| 0 <= m < destinations@.len() && t[m] == names@[i as int]@;
                    assert(t.contains(names@[i as int]@));
                } else {
                    assert(!t.contains(names@[i as int]@));
                }
            }
            if !listed {
                let ghost before = texts(stale@);
                stale.push(names[i].clone());
                assert(texts(stale@) =~= before.push(names@[i as int]@));
            }
        }
        i = i + 1;
    }
    assert(texts(names@).take(names@.len() as int) =~= texts(names@));
    Ok(ItemsOutputPlan { destinations, stale })
}

/// A name written for the `index`-th file of a batch is recognized as that
/// file, and as no other.
pub proof fn lemma_output_name_recognized(index: nat, extension: Seq<char>)
    requires
        0 < index <= usize::MAX,
    ensures
        generated_index(items_output_text(index, extension), extension) == Some(index),
{
    let name = items_output_text(index, extension);
    let p = items_prefix();
    let s = seq!['.'] + extension;
    let t = padded_text(index, 3);
    lemma_padded_text(index, 3);
    assert(name =~= p + (t + s));
    assert(name.take(p.len() as int) =~= p);
    assert(name.skip(name.len() - s.len()) =~= s);
    assert(name.subrange(p.len() as int, name.len() - s.len()) =~= t);
}

} // verus!
