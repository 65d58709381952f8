//! HTTP header maps, by what they hold: under each name, in lower case, the
//! values in the order in which they were appended.

use axum::http::{HeaderMap, HeaderValue};
use vstd::prelude::*;
use vstd::string::*;
use vstd::utf8::*;

use crate::text::{lossy_text, text_from_utf8_lossy, utf8_lossy};

verus! {

/// Declares `http::HeaderMap`, the header map that axum and reqwest share.
#[verifier::external_type_specification]
#[verifier::external_body]
#[verifier::reject_recursive_types(T)]
pub struct ExHeaderMap<T>(axum::http::HeaderMap<T>);

/// Declares `http::HeaderValue`, the values of a header map.
#[verifier::external_type_specification]
#[verifier::external_body]
pub struct ExHeaderValue(axum::http::HeaderValue);

/// What a header map holds: under each name, in lower case, its values.
pub uninterp spec fn header_contents(headers: HeaderMap<HeaderValue>) -> Map<
    Seq<char>,
    Seq<Seq<u8>>,
>;

/// The contents of a header map.
pub type Contents = Map<Seq<char>, Seq<Seq<u8>>>;

/// The contents of an empty header map.
pub open spec fn no_contents() -> Contents {
    Map::empty()
}

/// The contents have exactly `n` names.
pub open spec fn has_names(contents: Contents, n: int) -> bool {
    contents.dom().finite() && contents.dom().len() == n
}

/// A character, in lower case where it is an ASCII letter.
pub open spec fn lower(c: char) -> char {
    if 'A' <= c && c <= 'Z' {
        (c as u32 + 32) as char
    } else {
        c
    }
}

/// The key under which a header name is held.
pub open spec fn header_key(name: Seq<char>) -> Seq<char> {
    name.map_values(|c: char| lower(c))
}

/// No two of the names are held under one key.
pub open spec fn distinct_keys(names: Seq<Seq<char>>) -> bool {
    forall|i: int, j: int|
        0 <= i < j < names.len() ==> header_key(#[trigger] names[i]) != header_key(
            #[trigger] names[j],
        )
}

pub(crate) proof fn lemma_key_differs(a: Seq<char>, b: Seq<char>, i: int)
    requires
        a.len() != b.len() || (0 <= i < a.len() && lower(a[i]) != lower(b[i])),
    ensures
        header_key(a) != header_key(b),
{
    assert(header_key(a).len() == a.len());
    assert(header_key(b).len() == b.len());
    if a.len() == b.len() {
        assert(header_key(a)[i] == lower(a[i]));
        assert(header_key(b)[i] == lower(b[i]));
    }
}

/// A character of the header names in use here: an ASCII letter, a digit or a
/// hyphen.
pub open spec fn name_char(c: char) -> bool {
    ||| 'A' <= c && c <= 'Z'
    ||| 'a' <= c && c <= 'z'
    ||| '0' <= c && c <= '9'
    ||| c == '-'
}

/// A header name made of letters, digits and hyphens, up to 64 of them.
pub open spec fn header_name(name: Seq<char>) -> bool {
    &&& 0 < name.len() <= 64
    &&& forall|i: int| 0 <= i < name.len() ==> name_char(#[trigger] name[i])
}

/// A character that a header value can hold: no control character but the tab.
pub open spec fn header_char(c: char) -> bool {
    c as u32 == 9 || (c as u32 >= 32 && c as u32 != 127)
}

/// Text that can be a header value.
pub open spec fn header_text(s: Seq<char>) -> bool {
    forall|i: int| 0 <= i < s.len() ==> header_char(#[trigger] s[i])
}

/// A byte that a header value can hold.
pub open spec fn header_byte(b: u8) -> bool {
    b == 9 || (b >= 32 && b != 127)
}

/// A byte that a header value shows as text: visible ASCII, blank or tab.
pub open spec fn visible_byte(b: u8) -> bool {
    b == 9 || 32 <= b < 127
}

/// The characters that ASCII bytes stand for.
pub open spec fn ascii_text(bytes: Seq<u8>) -> Seq<char> {
    bytes.map_values(|b: u8| b as char)
}

/// There is a value under a name, and the first one is visible throughout.
pub open spec fn first_is_visible(contents: Contents, name: Seq<char>) -> bool {
    let values = values_of(contents, name);
    values.len() > 0 && forall|i: int|
        0 <= i < values[0].len() ==> visible_byte(#[trigger] values[0][i])
}

/// The values under a name.
pub open spec fn values_of(contents: Contents, name: Seq<char>) -> Seq<Seq<u8>> {
    if contents.contains_key(header_key(name)) {
        contents[header_key(name)]
    } else {
        Seq::empty()
    }
}

/// The contents with a value more under a name.
pub open spec fn appended(contents: Contents, name: Seq<char>, value: Seq<u8>) -> Contents {
    contents.insert(header_key(name), values_of(contents, name).push(value))
}

/// The contents with a text more under a name.
pub open spec fn appended_text(contents: Contents, name: Seq<char>, value: Seq<char>) -> Contents {
    appended(contents, name, encode_utf8(value))
}

/// The most names that a header map is sure to take one more beside: below a
/// fifth of its largest table it can always be rebuilt in place.
pub const NAMES_MAX: usize = 6553;

/// There is room for `more` further names.
pub open spec fn has_room(contents: Contents, more: int) -> bool {
    contents.dom().finite() && contents.dom().len() + more <= NAMES_MAX + 1
}

/// `HeaderMap::new`: a header map with nothing in it.
#[verifier::external_body]
pub(crate) fn no_headers() -> (headers: HeaderMap<HeaderValue>)
    ensures
        header_contents(headers) == no_contents(),
{
    HeaderMap::new()
}

/// `HeaderMap::append` of a value that is made from text by `str::parse`: the
/// value comes last among those of its name, and all other names keep theirs.
/// Names are the same that differ in case alone. Text is a header value where
/// every byte of its UTF-8 form is a tab, or at least 32 and not 127.
/// A header map that has grown to its limit panics on a new name; with at most
/// as many names as `NAMES_MAX` it is never there.
#[verifier::external_body]
pub(crate) fn append_header(
    headers: &mut HeaderMap<HeaderValue>,
    name: &'static str,
    value: &str,
)
    requires
        header_name(name@),
        header_text(value@),
        has_room(header_contents(*old(headers)), 1),
    ensures
        header_contents(*final(headers)) == appended_text(
            header_contents(*old(headers)),
            name@,
            value@,
        ),
{
    headers.append(name, value.parse().unwrap());
}

/// `HeaderMap::get_all`: the bytes of the values under a name, in order. A
/// header value holds no byte but the tab, 32 to 126 and 128 to 255.
#[verifier::external_body]
pub(crate) fn header_values(headers: &HeaderMap<HeaderValue>, name: &'static str) -> (values: Vec<
    Vec<u8>,
>)
    requires
        header_name(name@),
    ensures
        values@.len() == values_of(header_contents(*headers), name@).len(),
        forall|i: int|
            0 <= i < values@.len() ==> (#[trigger] values@[i])@ == values_of(
                header_contents(*headers),
                name@,
            )[i],
        forall|i: int, j: int|
            0 <= i < values@.len() && 0 <= j < values@[i]@.len() ==> header_byte(
                #[trigger] values@[i]@[j],
            ),
{
    headers.get_all(name).iter().map(|v| v.as_bytes().to_vec()).collect()
}

/// `HeaderMap::get` and `HeaderValue::to_str`: the first value under a name as
/// text, where there is one and it is visible ASCII throughout.
#[verifier::external_body]
pub(crate) fn header_text_of(headers: &HeaderMap<HeaderValue>, name: &'static str) -> (text: Option<
    String,
>)
    requires
        header_name(name@),
    ensures
        text is Some <==> first_is_visible(header_contents(*headers), name@),
        text matches Some(t) ==> t@ == ascii_text(values_of(header_contents(*headers), name@)[0]),
{
    match headers.get(name) {
        Some(value) => value.to_str().ok().map(String::from),
        None => None,
    }
}

/// `HeaderMap::keys_len`: how many names a header map holds.
#[verifier::external_body]
fn header_names(headers: &HeaderMap<HeaderValue>) -> (n: usize)
    ensures
        has_names(header_contents(*headers), n as int),
{
    headers.keys_len()
}

/// Whether a header map has room for `more` further names.
pub fn room_for(headers: &HeaderMap<HeaderValue>, more: usize) -> (r: bool)
    requires
        more <= NAMES_MAX,
    ensures
        r == has_room(header_contents(*headers), more as int),
        r <==> header_contents(*headers).dom().len() + more <= 6554,
{
    let n = header_names(headers);
    n <= NAMES_MAX + 1 - more
}

/// Whether text can be a header value.
pub fn is_header_text(text: &str) -> (r: bool)
    ensures
        r == header_text(text@),
        r <==> forall|i: int|
            0 <= i < text@.len() ==> (#[trigger] text@[i]) as u32 == 9 || (text@[i] as u32 >= 32
                && text@[i] as u32 != 127),
{
    for c in it: text.chars()
        invariant
            it.seq() == text@,
            forall|i: int| 0 <= i < it.index() ==> header_char(#[trigger] text@[i]),
    {
        assert(c == text@[it.index() as int]);
        let u: u32 = c as u32;
        if !(u == 9 || (u >= 32 && u != 127)) {
            return false;
        }
    }
    true
}

pub(crate) proof fn lemma_room(contents: Contents, name: Seq<char>, value: Seq<u8>, more: int)
    requires
        has_room(contents, more),
        more >= 1,
    ensures
        has_room(appended(contents, name, value), more - 1),
{
}

/// The contents with values more under a name, each read as UTF-8 text.
pub open spec fn appended_all(
    contents: Contents,
    name: Seq<char>,
    values: Seq<Seq<u8>>,
) -> Contents
    decreases values.len(),
{
    if values.len() == 0 {
        contents
    } else {
        appended_text(
            appended_all(contents, name, values.drop_last()),
            name,
            lossy_text(values.last()),
        )
    }
}

/// The contents with the values that `remote` has under a name.
pub open spec fn with_remote_header(
    contents: Contents,
    remote: Contents,
    name: Seq<char>,
) -> Contents {
    appended_all(contents, name, values_of(remote, name))
}

pub(crate) proof fn lemma_room_all(
    contents: Contents,
    name: Seq<char>,
    values: Seq<Seq<u8>>,
    more: int,
)
    requires
        has_room(contents, more),
        more >= 1,
    ensures
        has_room(appended_all(contents, name, values), more - 1),
        values.len() > 0 ==> appended_all(contents, name, values).dom() == contents.dom().insert(
            header_key(name),
        ),
    decreases values.len(),
{
    if values.len() > 0 {
        lemma_room_all(contents, name, values.drop_last(), more);
        let before = appended_all(contents, name, values.drop_last());
        assert(appended_all(contents, name, values).dom() =~= before.dom().insert(
            header_key(name),
        ));
        assert(appended_all(contents, name, values).dom() =~= contents.dom().insert(
            header_key(name),
        ));
    }
}

proof fn lemma_header_char(c: char, b: u8)
    requires
        (c as u32) < 128,
        b == c as u8,
        header_byte(b),
    ensures
        header_char(c),
{
    let u = c as u32;
    assert(u == b as u32);
}

/// Copies the values under a name from the headers of a remote answer.
pub fn add_remote_header(
    key: &'static str,
    headers: &mut HeaderMap<HeaderValue>,
    remote_headers: &HeaderMap<HeaderValue>,
)
    requires
        header_name(key@),
        has_room(header_contents(*old(headers)), 2),
    ensures
        header_contents(*final(headers)) == with_remote_header(
            header_contents(*old(headers)),
            header_contents(*remote_headers),
            key@,
        ),
{
    let values = header_values(remote_headers, key);
    let ghost all = values_of(header_contents(*remote_headers), key@);
    let ghost start = header_contents(*headers);
    let mut i: usize = 0;
    assert(all.take(0) =~= Seq::empty());
    while i < values.len()
        invariant
            i <= values@.len(),
            values@.len() == all.len(),
            forall|k: int| 0 <= k < values@.len() ==> (#[trigger] values@[k])@ == all[k],
            forall|k: int, j: int|
                0 <= k < values@.len() && 0 <= j < values@[k]@.len() ==> header_byte(
                    #[trigger] values@[k]@[j],
                ),
            header_name(key@),
            has_room(start, 2),
            header_contents(*headers) == appended_all(start, key@, all.take(i as int)),
        decreases values@.len() - i,
    {
        let text = text_from_utf8_lossy(values[i].as_slice());
        proof {
            let bytes = values@[i as int]@;
            assert forall|k: int| 0 <= k < text@.len() implies header_char(
                #[trigger] text@[k],
            ) by {
                if (text@[k] as u32) < 128 {
                    assert(bytes.contains(text@[k] as u8));
                    let j = choose|j: int| 0 <= j < bytes.len() && bytes[j] == text@[k] as u8;
                    assert(header_byte(values@[i as int]@[j]));
                    lemma_header_char(text@[k], bytes[j]);
                }
            }
            lemma_room_all(start, key@, all.take(i as int), 2);
        }
        append_header(headers, key, text.as_str());
        proof {
            assert(all.take(i + 1).drop_last() =~= all.take(i as int));
            assert(all.take(i + 1).last() == all[i as int]);
        }
        i += 1;
    }
    assert(all.take(all.len() as int) =~= all);
}

/// A name is held in lower case: letters from `A` to `Z` become those from `a`
/// to `z`, and every other character stays.
pub proof fn law_names_are_held_in_lower_case(name: Seq<char>, i: int)
    requires
        0 <= i < name.len(),
    ensures
        header_key(name).len() == name.len(),
        65 <= name[i] as int <= 90 ==> header_key(name)[i] == (name[i] as int + 32) as char,
        name[i] as int <= 64 || name[i] as int >= 91 ==> header_key(name)[i] == name[i],
{
}

/// A value is appended behind those of its name, and no other name is touched.
pub proof fn law_value_comes_last(
    contents: Contents,
    name: Seq<char>,
    value: Seq<char>,
    other: Seq<char>,
)
    requires
        other != header_key(name),
    ensures
        ({
            let key = header_key(name);
            let after = appended_text(contents, name, value);
            &&& after.contains_key(key)
            &&& after[key] == (if contents.contains_key(key) {
                contents[key]
            } else {
                Seq::empty()
            }).push(encode_utf8(value))
            &&& after.contains_key(other) == contents.contains_key(other)
            &&& contents.contains_key(other) ==> after[other] == contents[other]
        }),
{
}

/// What is copied from a remote answer under a name comes behind what was there,
/// value by value. A value that is UTF-8 comes unchanged, and any other as what
/// `String::from_utf8_lossy` makes of it. No other name is touched, and neither
/// is this one where the answer has nothing under it.
pub proof fn law_remote_values_are_copied(
    contents: Contents,
    remote: Contents,
    name: Seq<char>,
    other: Seq<char>,
)
    requires
        other != header_key(name),
    ensures
        ({
            let key = header_key(name);
            let after = with_remote_header(contents, remote, name);
            let old_values = if contents.contains_key(key) {
                contents[key]
            } else {
                Seq::empty()
            };
            let n = old_values.len() as int;
            &&& after.contains_key(other) == contents.contains_key(other)
            &&& contents.contains_key(other) ==> after[other] == contents[other]
            &&& !remote.contains_key(key) ==> after == contents
            &&& remote.contains_key(key) && remote[key].len() > 0 ==> {
                &&& after.contains_key(key)
                &&& after[key].len() == n + remote[key].len()
                &&& after[key].take(n) == old_values
                &&& forall|i: int|
                    0 <= i < remote[key].len() ==> after[key][n + i] == (if valid_utf8(
                        #[trigger] remote[key][i],
                    ) {
                        remote[key][i]
                    } else {
                        encode_utf8(utf8_lossy(remote[key][i]))
                    })
            }
        }),
{
    let key = header_key(name);
    if remote.contains_key(key) {
        lemma_copied_values(contents, name, remote[key], other);
    }
}

proof fn lemma_copied_values(
    contents: Contents,
    name: Seq<char>,
    values: Seq<Seq<u8>>,
    other: Seq<char>,
)
    requires
        other != header_key(name),
    ensures
        ({
            let key = header_key(name);
            let after = appended_all(contents, name, values);
            let old_values = values_of(contents, name);
            let n = old_values.len() as int;
            &&& after.contains_key(other) == contents.contains_key(other)
            &&& contents.contains_key(other) ==> after[other] == contents[other]
            &&& values_of(after, name).len() == n + values.len()
            &&& values_of(after, name).take(n) == old_values
            &&& values.len() > 0 ==> after.contains_key(key)
            &&& forall|i: int|
                0 <= i < values.len() ==> values_of(after, name)[n + i] == (if valid_utf8(
                    #[trigger] values[i],
                ) {
                    values[i]
                } else {
                    encode_utf8(utf8_lossy(values[i]))
                })
        }),
    decreases values.len(),
{
    let old_values = values_of(contents, name);
    let n = old_values.len() as int;
    if values.len() == 0 {
        assert(old_values.take(n) =~= old_values);
    } else {
        let rest = values.drop_last();
        lemma_copied_values(contents, name, rest, other);
        let before = appended_all(contents, name, rest);
        let after = appended_all(contents, name, values);
        let added = encode_utf8(lossy_text(values.last()));
        assert(values_of(after, name) =~= values_of(before, name).push(added));
        assert(values_of(after, name).take(n) =~= values_of(before, name).take(n));
        assert forall|i: int| 0 <= i < values.len() implies values_of(after, name)[n + i] == (
        if valid_utf8(#[trigger] values[i]) {
            values[i]
        } else {
            encode_utf8(utf8_lossy(values[i]))
        }) by {
            if i < rest.len() {
                assert(rest[i] == values[i]);
            } else if valid_utf8(values[i]) {
                decode_utf8_encode_utf8(values[i]);
            }
        }
    }
}

} // verus!
