//! Storage providers, and the statements that give the engine their credentials.

use vstd::prelude::*;
use vstd::string::StringSliceAdditionalSpecFns;
use crate::datasource::options::{extra_views, ExtraView, OptionMap};
use crate::datasource::{
    str_views, CloudCredential, DataSourceError, DataSourceErrorView,
};
use crate::engine::{ScopedCredential, SignedInput};
use crate::input_resolver::sources::{
    literal_body, literal_body_bounds, literal_closes, read_body,
};
use crate::scan::{ends_with, ends_with_seq, join};
use crate::sql::{pass_over, passed_over, passed_over_bounds};
use crate::text::{
    chars_of, contains, contains_seq, replace, replace_seq, string_of_range, trim, trim_seq,
};
use crate::types::{opt_str, strs};

verus! {

/// `s` as a string literal: in single quotes, with its own quotes doubled.
pub open spec fn literal_of(s: Seq<char>) -> Seq<char> {
    "'"@ + replace_seq(s, "'"@, "''"@) + "'"@
}

/// `s` as a string literal.
pub fn sql_lit(s: &str) -> (r: String)
    ensures
        r@ == literal_of(s@),
{
    proof {
        reveal_strlit("'");
    }
    let body = replace(s, "'", "''");
    join(join("'", body.as_str()).as_str(), "'")
}

/// Whether a byte stands for itself in an encoded URI.
pub open spec fn unreserved(b: u8) -> bool {
    (65 <= b <= 90) || (97 <= b <= 122) || (48 <= b <= 57) || b == 45 || b == 95 || b == 46 || b
        == 126
}

/// An upper-case hexadecimal digit.
pub open spec fn upper_hex(n: int) -> char {
    if n < 10 {
        ((48 + n) as u8) as char
    } else {
        ((55 + n) as u8) as char
    }
}

/// One byte of an encoded URI.
pub open spec fn encoded_byte(b: u8, encode_slash: bool) -> Seq<char> {
    if unreserved(b) || (b == 47 && !encode_slash) {
        seq![b as char]
    } else {
        seq!['%', upper_hex(b as int / 16), upper_hex(b as int % 16)]
    }
}

/// Bytes, percent-encoded.
pub open spec fn encoded(bytes: Seq<u8>, encode_slash: bool) -> Seq<char>
    decreases bytes.len(),
{
    if bytes.len() == 0 {
        Seq::empty()
    } else {
        encoded(bytes.drop_last(), encode_slash) + encoded_byte(bytes.last(), encode_slash)
    }
}

fn hex_upper(n: u8) -> (r: char)
    requires
        n < 16,
    ensures
        r == upper_hex(n as int),
{
    if n < 10 {
        (48u8 + n) as char
    } else {
        (55u8 + n) as char
    }
}

/// `s` percent-encoded: letters, digits and `-_.~` stand for themselves, and `/` does
/// unless `encode_slash`.
pub fn aws_uri_encode(s: &str, encode_slash: bool) -> (r: String)
    ensures
        r@ == encoded(vstd::utf8::encode_utf8(s@), encode_slash),
{
    let bytes = s.as_bytes();
    let mut out = String::new();
    let mut i: usize = 0;
    assert(out@ =~= Seq::empty());
    while i < bytes.len()
        invariant
            i <= bytes@.len(),
            out@ == encoded(bytes@.take(i as int), encode_slash),
        decreases bytes@.len() - i,
    {
        proof {
            let next = bytes@.take(i + 1);
            assert(next.drop_last() =~= bytes@.take(i as int));
            assert(next.last() == bytes@[i as int]);
        }
        let ghost before = out@;
        let b: u8 = bytes[i];
        let plain = (65 <= b && b <= 90) || (97 <= b && b <= 122) || (48 <= b && b <= 57) || b == 45
            || b == 95 || b == 46 || b == 126 || (b == 47 && !encode_slash);
        if plain {
            out.push(b as char);
        } else {
            out.push('%');
            out.push(hex_upper(b / 16));
            out.push(hex_upper(b % 16));
        }
        assert(out@ =~= before + encoded_byte(b, encode_slash));
        i = i + 1;
    }
    assert(bytes@.take(i as int) =~= bytes@);
    out
}

/// The value of an upper-case hexadecimal digit.
pub open spec fn upper_hex_value(c: char) -> Option<int> {
    if '0' <= c <= '9' {
        Some(c as int - 48)
    } else if 'A' <= c <= 'F' {
        Some(c as int - 55)
    } else {
        None
    }
}

/// The bytes that a percent-encoded text stands for: `%` and two digits stand for a byte,
/// and any other character for itself.
pub open spec fn decoded(s: Seq<char>) -> Seq<u8>
    decreases s.len(),
{
    if s.len() == 0 {
        Seq::empty()
    } else if s[0] == '%' && s.len() >= 3 && upper_hex_value(s[1]) is Some && upper_hex_value(
        s[2],
    ) is Some {
        seq![(upper_hex_value(s[1])->0 * 16 + upper_hex_value(s[2])->0) as u8] + decoded(s.skip(3))
    } else {
        seq![s[0] as u8] + decoded(s.skip(1))
    }
}

/// Whether a character occurs in an encoded URI.
pub open spec fn uri_char(c: char, encode_slash: bool) -> bool {
    ('A' <= c <= 'Z') || ('a' <= c <= 'z') || ('0' <= c <= '9') || c == '-' || c == '_' || c == '.'
        || c == '~' || c == '%' || (c == '/' && !encode_slash)
}

proof fn encoded_from_front(bytes: Seq<u8>, encode_slash: bool)
    requires
        bytes.len() > 0,
    ensures
        encoded(bytes, encode_slash) == encoded_byte(bytes[0], encode_slash) + encoded(
            bytes.skip(1),
            encode_slash,
        ),
    decreases bytes.len(),
{
    let rest = bytes.skip(1);
    if bytes.len() == 1 {
        assert(encoded(bytes.drop_last(), encode_slash) =~= Seq::<char>::empty());
        assert(encoded(rest, encode_slash) =~= Seq::<char>::empty());
        assert(encoded(bytes, encode_slash) =~= encoded_byte(bytes[0], encode_slash) + encoded(
            rest,
            encode_slash,
        ));
    } else {
        encoded_from_front(bytes.drop_last(), encode_slash);
        assert(bytes.drop_last().skip(1) =~= rest.drop_last());
        assert(rest.last() == bytes.last());
        assert(encoded(bytes, encode_slash) =~= encoded_byte(bytes[0], encode_slash) + encoded(
            rest,
            encode_slash,
        ));
    }
}

proof fn hex_read_back(n: int)
    requires
        0 <= n < 16,
    ensures
        upper_hex_value(upper_hex(n)) == Some(n),
{
}

/// Decoding undoes the encoding.
pub proof fn encoding_is_undone(bytes: Seq<u8>, encode_slash: bool)
    ensures
        decoded(encoded(bytes, encode_slash)) == bytes,
    decreases bytes.len(),
{
    if bytes.len() > 0 {
        let b = bytes[0];
        let rest = bytes.skip(1);
        let one = encoded_byte(b, encode_slash);
        let all = encoded(bytes, encode_slash);
        encoded_from_front(bytes, encode_slash);
        encoding_is_undone(rest, encode_slash);
        if one.len() == 1 {
            assert(all.skip(1) =~= encoded(rest, encode_slash));
            assert(all[0] == b as char);
        } else {
            hex_read_back(b as int / 16);
            hex_read_back(b as int % 16);
            assert(all.skip(3) =~= encoded(rest, encode_slash));
            assert(all[0] == '%' && all[1] == one[1] && all[2] == one[2]);
        }
        assert(seq![b] + rest =~= bytes);
    } else {
        assert(decoded(encoded(bytes, encode_slash)) =~= bytes);
    }
}

/// No two texts are encoded alike.
pub proof fn encoding_tells_texts_apart(a: Seq<char>, b: Seq<char>, encode_slash: bool)
    requires
        encoded(vstd::utf8::encode_utf8(a), encode_slash) == encoded(
            vstd::utf8::encode_utf8(b),
            encode_slash,
        ),
    ensures
        a == b,
{
    encoding_is_undone(vstd::utf8::encode_utf8(a), encode_slash);
    encoding_is_undone(vstd::utf8::encode_utf8(b), encode_slash);
    vstd::utf8::encode_utf8_decode_utf8(a);
    vstd::utf8::encode_utf8_decode_utf8(b);
}

/// Only characters that a URI takes occur in an encoded text, and every `%` in it leads
/// two upper-case hexadecimal digits.
pub proof fn encoding_is_a_uri(bytes: Seq<u8>, encode_slash: bool, i: int)
    requires
        0 <= i < encoded(bytes, encode_slash).len(),
    ensures
        ({
            let e = encoded(bytes, encode_slash);
            &&& uri_char(e[i], encode_slash)
            &&& e[i] == '%' ==> i + 2 < e.len() && upper_hex_value(e[i + 1]) is Some
                && upper_hex_value(e[i + 2]) is Some
        }),
    decreases bytes.len(),
{
    let head = encoded(bytes.drop_last(), encode_slash);
    let b = bytes.last();
    let one = encoded_byte(b, encode_slash);
    if i < head.len() {
        encoding_is_a_uri(bytes.drop_last(), encode_slash, i);
    } else {
        let e = encoded(bytes, encode_slash);
        assert(e[i] == one[i - head.len()]);
        if one.len() == 3 {
            hex_read_back(b as int / 16);
            hex_read_back(b as int % 16);
            assert(e[head.len() as int + 1] == one[1]);
            assert(e[head.len() as int + 2] == one[2]);
        }
    }
}

/// A signed input over mathematical values.
pub struct SignedView {
    pub uri: Seq<char>,
    pub url: Seq<char>,
}

impl View for SignedInput {
    type V = SignedView;

    open spec fn view(&self) -> SignedView {
        SignedView { uri: self.uri@, url: self.url@ }
    }
}

pub open spec fn signed_views(v: Seq<SignedInput>) -> Seq<SignedView> {
    v.map_values(|s: SignedInput| s@)
}

/// The URL that an object is signed at: that of the first input with its URI.
pub open spec fn url_of(signed: Seq<SignedView>, uri: Seq<char>) -> Option<Seq<char>>
    decreases signed.len(),
{
    if signed.len() == 0 {
        None
    } else if signed[0].uri.len() > 0 && signed[0].uri == uri {
        Some(signed[0].url)
    } else {
        url_of(signed.subrange(1, signed.len() as int), uri)
    }
}

/// What stands for the literal whose opening quote is at `i`: the literal of its
/// object's URL, where it is closed and its content is a signed object's URI; else the
/// literal as it is.
pub open spec fn signed_literal(s: Seq<char>, signed: Seq<SignedView>, i: int) -> Seq<char> {
    let (content, end) = literal_body(s, i + 1);
    match url_of(signed, content) {
        Some(url) => if literal_closes(s, i + 1) {
            literal_of(url)
        } else {
            s.subrange(i, end)
        },
        None => s.subrange(i, end),
    }
}

/// The query from `i` on with the literals of signed objects replaced by their URLs'.
/// Every other character stays, and a quote in a comment, in a quoted name or in other
/// quoted text begins no literal.
pub open spec fn rewritten(s: Seq<char>, signed: Seq<SignedView>, i: int) -> Seq<char>
    decreases s.len() - i,
    via rewritten_decreases
{
    if i >= s.len() {
        Seq::empty()
    } else {
        match passed_over(s, i) {
            Some(end) => s.subrange(i, end) + rewritten(s, signed, end),
            None => if s[i] == '\'' {
                signed_literal(s, signed, i) + rewritten(s, signed, literal_body(s, i + 1).1)
            } else {
                seq![s[i]] + rewritten(s, signed, i + 1)
            },
        }
    }
}

#[via_fn]
proof fn rewritten_decreases(s: Seq<char>, signed: Seq<SignedView>, i: int) {
    if i < s.len() {
        literal_body_bounds(s, i + 1);
        if passed_over(s, i) is Some {
            passed_over_bounds(s, i);
        }
    }
}

fn find_url<'a>(signed: &'a [SignedInput], uri: &String) -> (r: Option<&'a String>)
    ensures
        r is Some <==> url_of(signed_views(signed@), uri@) is Some,
        r is Some ==> r->0@ == url_of(signed_views(signed@), uri@)->0,
{
    let ghost all = signed_views(signed@);
    let n: usize = signed.len();
    let mut i: usize = 0;
    assert(all.subrange(0, n as int) =~= all);
    while i < n
        invariant
            i <= n,
            n == signed@.len(),
            all == signed_views(signed@),
            url_of(all.subrange(i as int, n as int), uri@) == url_of(all, uri@),
        decreases n - i,
    {
        let ghost rest = all.subrange(i as int, n as int);
        assert(rest[0] == signed@[i as int]@);
        if !signed[i].uri.as_str().is_empty() && signed[i].uri == *uri {
            return Some(&signed[i].url);
        }
        i = i + 1;
        assert(rest.subrange(1, rest.len() as int) =~= all.subrange(i as int, n as int));
    }
    None
}

/// The query with each signed object's literal replaced by its URL's. Only a whole
/// literal counts, so one object's URI never shadows another that it begins or ends.
pub fn rewrite_signed_urls(sql: &str, signed: &[SignedInput]) -> (r: String)
    ensures
        r@ == rewritten(sql@, signed_views(signed@), 0),
{
    let v = chars_of(sql);
    let n: usize = v.len();
    let ghost inputs = signed_views(signed@);
    let mut out = String::new();
    let mut i: usize = 0;
    assert(out@ + rewritten(v@, inputs, 0) =~= rewritten(v@, inputs, 0));
    while i < n
        invariant
            i <= n,
            n == v@.len(),
            inputs == signed_views(signed@),
            out@ + rewritten(v@, inputs, i as int) == rewritten(v@, inputs, 0),
        decreases n - i,
    {
        let ghost before = out@;
        if let Some(end) = pass_over(&v, i) {
            out.append(string_of_range(&v, i, end).as_str());
            assert(out@ + rewritten(v@, inputs, end as int) =~= before + rewritten(
                v@,
                inputs,
                i as int,
            ));
            i = end;
        } else if v[i] == '\'' {
            let rest = read_body(&v, i + 1);
            let url = if rest.closed {
                find_url(signed, &rest.value)
            } else {
                None
            };
            match url {
                Some(u) => {
                    out.append(sql_lit(u.as_str()).as_str());
                },
                None => {
                    out.append(string_of_range(&v, i, rest.end).as_str());
                },
            }
            assert(out@ + rewritten(v@, inputs, rest.end as int) =~= before + rewritten(
                v@,
                inputs,
                i as int,
            ));
            i = rest.end;
        } else {
            out.push(v[i]);
            assert(out@ + rewritten(v@, inputs, i + 1) =~= before + rewritten(
                v@,
                inputs,
                i as int,
            ));
            i = i + 1;
        }
    }
    assert(out@ =~= out@ + rewritten(v@, inputs, i as int));
    out
}

/// A query in which no quote begins a signed object's literal is left as it is.
pub proof fn unsigned_text_is_kept(s: Seq<char>, signed: Seq<SignedView>)
    requires
        forall|k: int|
            0 <= k < s.len() && #[trigger] s[k] == '\'' ==> url_of(
                signed,
                literal_body(s, k + 1).0,
            ) is None,
    ensures
        rewritten(s, signed, 0) == s,
{
    kept_from(s, signed, 0);
    assert(s.subrange(0, s.len() as int) =~= s);
}

proof fn kept_from(s: Seq<char>, signed: Seq<SignedView>, i: int)
    requires
        0 <= i <= s.len(),
        forall|k: int|
            0 <= k < s.len() && #[trigger] s[k] == '\'' ==> url_of(
                signed,
                literal_body(s, k + 1).0,
            ) is None,
    ensures
        rewritten(s, signed, i) == s.subrange(i, s.len() as int),
    decreases s.len() - i,
{
    if i < s.len() {
        literal_body_bounds(s, i + 1);
        if passed_over(s, i) is Some {
            passed_over_bounds(s, i);
        }
        let end = match passed_over(s, i) {
            Some(end) => end,
            None => if s[i] == '\'' {
                literal_body(s, i + 1).1
            } else {
                i + 1
            },
        };
        kept_from(s, signed, end);
        assert(seq![s[i]] =~= s.subrange(i, i + 1));
        assert(s.subrange(i, end) + s.subrange(end, s.len() as int) =~= s.subrange(
            i,
            s.len() as int,
        ));
    }
}

/// A signed object's literal is replaced wherever it stands outside of comments and other
/// quoted text, and what follows it is rewritten in turn.
pub proof fn signed_literals_are_replaced(s: Seq<char>, signed: Seq<SignedView>, i: int)
    requires
        0 <= i < s.len(),
        s[i] == '\'',
        literal_closes(s, i + 1),
        url_of(signed, literal_body(s, i + 1).0) is Some,
    ensures
        rewritten(s, signed, i) == literal_of(url_of(signed, literal_body(s, i + 1).0)->0)
            + rewritten(s, signed, literal_body(s, i + 1).1),
{
}

/// The Unicode upper-case form of a text.
pub uninterp spec fn uppercased(s: Seq<char>) -> Seq<char>;

/// An ASCII letter in upper case; any other character as it is.
pub open spec fn upper_char(c: char) -> char {
    if 'a' <= c && c <= 'z' {
        ((c as u8) - 32) as char
    } else {
        c
    }
}

/// `str::to_uppercase`: the upper-case form of `s`, which depends on nothing else. Of an
/// ASCII text only the ASCII letters change.
#[verifier::external_body]
fn to_upper(s: &str) -> (r: String)
    ensures
        r@ == uppercased(s@),
        s.is_ascii() ==> r@ == s@.map_values(|c: char| upper_char(c)),
{
    s.to_uppercase()
}

/// Whether a character may begin an option key.
pub open spec fn key_start(c: char) -> bool {
    c == '_' || ('A' <= c && c <= 'Z')
}

/// Whether a text is a plain upper-case identifier.
pub open spec fn plain_key(s: Seq<char>) -> bool {
    &&& s.len() > 0
    &&& key_start(s[0])
    &&& forall|i: int| 0 <= i < s.len() ==> key_start(#[trigger] s[i]) || ('0' <= s[i] && s[i] <= '9')
}

fn is_plain_key(s: &str) -> (r: bool)
    ensures
        r == plain_key(s@),
{
    let v = chars_of(s);
    if v.len() == 0 || !(v[0] == '_' || ('A' <= v[0] && v[0] <= 'Z')) {
        return false;
    }
    let mut i: usize = 0;
    while i < v.len()
        invariant
            i <= v@.len(),
            v@ == s@,
            forall|k: int|
                0 <= k < i ==> key_start(#[trigger] v@[k]) || ('0' <= v@[k] && v@[k] <= '9'),
        decreases v@.len() - i,
    {
        let c = v[i];
        if !(c == '_' || ('A' <= c && c <= 'Z') || ('0' <= c && c <= '9')) {
            assert(!(key_start(v@[i as int]) || ('0' <= v@[i as int] && v@[i as int] <= '9')));
            return false;
        }
        i = i + 1;
    }
    true
}

/// An option key in upper case. It stands unquoted in a statement, so anything but a
/// plain identifier is refused.
pub fn secret_key_ident(key: &str) -> (r: Result<String, DataSourceError>)
    ensures
        r is Ok <==> plain_key(uppercased(key@)),
        r is Ok ==> r->Ok_0@ == uppercased(key@),
        r is Err ==> r->Err_0@ == DataSourceErrorView::InvalidSecretKey(key@),
{
    let upper = to_upper(key);
    if is_plain_key(upper.as_str()) {
        Ok(upper)
    } else {
        Err(DataSourceError::InvalidSecretKey(key.to_owned()))
    }
}

/// The text after its leading slashes.
pub open spec fn without_slashes(s: Seq<char>) -> Seq<char>
    decreases s.len(),
{
    if s.len() > 0 && s[0] == '/' {
        without_slashes(s.subrange(1, s.len() as int))
    } else {
        s
    }
}

/// A prefix as a URL with a scheme.
pub open spec fn qualified(scheme: Seq<char>, p: Seq<char>) -> Seq<char> {
    if contains_seq(p, "://"@) {
        p
    } else {
        scheme + "://"@ + without_slashes(p)
    }
}

/// A prefix as a URL with a scheme, and a slash at its end.
pub open spec fn scope_of(scheme: Seq<char>, prefix: Seq<char>) -> Seq<char> {
    let url = qualified(scheme, trim_seq(prefix));
    if ends_with_seq(url, "/"@) {
        url
    } else {
        url + "/"@
    }
}

/// The scope of a credential: its prefix with a scheme, and a slash at its end.
pub fn scope_url(scheme: &str, prefix: &str) -> (r: String)
    ensures
        r@ == scope_of(scheme@, prefix@),
{
    let p = trim(prefix);
    let url = if contains(p.as_str(), "://") {
        p
    } else {
        let v = chars_of(p.as_str());
        let n: usize = v.len();
        let mut i: usize = 0;
        assert(v@.subrange(0, n as int) =~= v@);
        while i < n && v[i] == '/'
            invariant
                i <= n,
                n == v@.len(),
                without_slashes(v@.subrange(i as int, n as int)) == without_slashes(v@),
            decreases n - i,
        {
            let ghost here = v@.subrange(i as int, n as int);
            i = i + 1;
            assert(here.subrange(1, here.len() as int) =~= v@.subrange(i as int, n as int));
        }
        let rest = string_of_range(&v, i, n);
        join(join(scheme, "://").as_str(), rest.as_str())
    };
    if ends_with(url.as_str(), "/") {
        url
    } else {
        join(url.as_str(), "/")
    }
}

/// A scope always ends in a slash.
pub proof fn scope_ends_in_slash(scheme: Seq<char>, prefix: Seq<char>)
    ensures
        ends_with_seq(scope_of(scheme, prefix), "/"@),
{
    reveal_strlit("/");
    let url = qualified(scheme, trim_seq(prefix));
    let s = url + "/"@;
    assert(s.subrange(s.len() - 1, s.len() - 1 + 1) =~= "/"@);
}

/// A provider's configured options.
#[derive(Debug, Clone, PartialEq, Eq)]
pub struct ProviderOptions {
    pub endpoint: Option<String>,
    pub region: Option<String>,
    pub url_style: Option<String>,
    pub use_ssl: Option<bool>,
    pub extra: OptionMap,
}

/// `ProviderOptions` over mathematical values.
pub struct OptionsView {
    pub endpoint: Option<Seq<char>>,
    pub region: Option<Seq<char>>,
    pub url_style: Option<Seq<char>>,
    pub use_ssl: Option<bool>,
    pub extra: Seq<ExtraView>,
}

impl View for ProviderOptions {
    type V = OptionsView;

    open spec fn view(&self) -> OptionsView {
        OptionsView {
            endpoint: opt_str(self.endpoint),
            region: opt_str(self.region),
            url_style: opt_str(self.url_style),
            use_ssl: self.use_ssl,
            extra: self.extra@,
        }
    }
}

/// No options.
pub open spec fn no_options() -> OptionsView {
    OptionsView {
        endpoint: None,
        region: None,
        url_style: None,
        use_ssl: None,
        extra: Seq::empty(),
    }
}

impl ProviderOptions {
    /// No options.
    pub fn unset() -> (r: ProviderOptions)
        ensures
            r@ == no_options(),
    {
        let r = ProviderOptions {
            endpoint: None,
            region: None,
            url_style: None,
            use_ssl: None,
            extra: OptionMap::new(),
        };
        assert(r.extra@ =~= Seq::empty());
        r
    }
}

/// The first of two settings that is set.
pub open spec fn first_set(a: Option<Seq<char>>, b: Option<Seq<char>>) -> Option<Seq<char>> {
    match a {
        Some(x) => Some(x),
        None => b,
    }
}

/// `parts` with an option behind them, where its value is set.
pub open spec fn with_option(parts: Seq<Seq<char>>, name: Seq<char>, value: Option<Seq<char>>) -> Seq<
    Seq<char>,
> {
    match value {
        Some(v) => parts.push(name + " "@ + literal_of(v)),
        None => parts,
    }
}

/// `parts` with a switch behind them, where it is set.
pub open spec fn with_switch(parts: Seq<Seq<char>>, name: Seq<char>, value: Option<bool>) -> Seq<
    Seq<char>,
> {
    match value {
        Some(v) => parts.push(
            name + " "@ + (if v {
                "true"@
            } else {
                "false"@
            }),
        ),
        None => parts,
    }
}

/// The first extra key that is no plain identifier in upper case.
pub open spec fn bad_key(extra: Seq<ExtraView>, from: int) -> Option<Seq<char>>
    decreases extra.len() - from,
{
    if from >= extra.len() {
        None
    } else if !plain_key(uppercased(extra[from].key)) {
        Some(extra[from].key)
    } else {
        bad_key(extra, from + 1)
    }
}

/// `parts` with the extra options behind them.
pub open spec fn with_extra(parts: Seq<Seq<char>>, extra: Seq<ExtraView>) -> Seq<Seq<char>>
    decreases extra.len(),
{
    if extra.len() == 0 {
        parts
    } else {
        with_extra(parts, extra.drop_last()).push(
            uppercased(extra.last().key) + " "@ + literal_of(extra.last().value),
        )
    }
}

/// `parts` with commas between them.
pub open spec fn listed(parts: Seq<Seq<char>>) -> Seq<char>
    decreases parts.len(),
{
    if parts.len() == 0 {
        Seq::empty()
    } else if parts.len() == 1 {
        parts[0]
    } else {
        listed(parts.drop_last()) + ", "@ + parts.last()
    }
}

/// The statement that creates a secret of these parts.
pub open spec fn secret_statement(name: Seq<char>, parts: Seq<Seq<char>>) -> Seq<char> {
    "CREATE OR REPLACE SECRET "@ + name + " ("@ + listed(parts) + ");"@
}

fn add_option(parts: &mut Vec<String>, name: &str, value: &Option<String>)
    ensures
        strs(final(parts)@) == with_option(strs(old(parts)@), name@, opt_str(*value)),
{
    let ghost before = strs(parts@);
    if let Some(v) = value {
        let part = join(join(name, " ").as_str(), sql_lit(v.as_str()).as_str());
        parts.push(part);
        assert(strs(parts@) =~= before.push(part@));
    }
}

fn add_switch(parts: &mut Vec<String>, name: &str, value: Option<bool>)
    ensures
        strs(final(parts)@) == with_switch(strs(old(parts)@), name@, value),
{
    let ghost before = strs(parts@);
    if let Some(v) = value {
        let part = join(
            join(name, " ").as_str(),
            if v {
                "true"
            } else {
                "false"
            },
        );
        parts.push(part);
        assert(strs(parts@) =~= before.push(part@));
    }
}

fn add_extra(parts: &mut Vec<String>, extra: &OptionMap) -> (r: Result<(), DataSourceError>)
    ensures
        r is Ok <==> bad_key(extra@, 0) is None,
        r is Ok ==> strs(final(parts)@) == with_extra(strs(old(parts)@), extra@),
        r is Err ==> r->Err_0@ == DataSourceErrorView::InvalidSecretKey(bad_key(extra@, 0)->0),
{
    let list = extra.entries();
    let ghost views = extra_views(list@);
    let ghost start = strs(parts@);
    let mut i: usize = 0;
    assert(views.take(0) =~= Seq::empty());
    while i < list.len()
        invariant
            i <= list@.len(),
            views == extra_views(list@),
            views == extra@,
            bad_key(views, i as int) == bad_key(views, 0),
            strs(parts@) == with_extra(start, views.take(i as int)),
        decreases list@.len() - i,
    {
        assert(views[i as int] == list@[i as int]@);
        proof {
            let next = views.take(i + 1);
            assert(next.drop_last() =~= views.take(i as int));
            assert(next.last() == views[i as int]);
        }
        let ghost before = strs(parts@);
        match secret_key_ident(list[i].key.as_str()) {
            Ok(key) => {
                let part = join(
                    join(key.as_str(), " ").as_str(),
                    sql_lit(list[i].value.as_str()).as_str(),
                );
                parts.push(part);
                assert(strs(parts@) =~= before.push(part@));
            },
            Err(e) => {
                return Err(e);
            },
        }
        i = i + 1;
    }
    assert(views.take(i as int) =~= views);
    Ok(())
}

fn list(parts: &[String]) -> (r: String)
    ensures
        r@ == listed(strs(parts@)),
{
    let ghost views = strs(parts@);
    let mut r = String::new();
    let mut i: usize = 0;
    assert(r@ =~= Seq::empty());
    while i < parts.len()
        invariant
            i <= parts@.len(),
            views == strs(parts@),
            r@ == listed(views.take(i as int)),
        decreases parts@.len() - i,
    {
        proof {
            let next = views.take(i + 1);
            assert(next.drop_last() =~= views.take(i as int));
            assert(next.last() == parts@[i as int]@);
        }
        let ghost before = r@;
        if i > 0 {
            r.append(", ");
        }
        r.append(parts[i].as_str());
        proof {
            if i == 0 {
                assert(r@ =~= parts@[i as int]@);
            }
        }
        i = i + 1;
    }
    assert(views.take(i as int) =~= views);
    r
}

fn statement(name: &str, parts: &[String]) -> (r: String)
    ensures
        r@ == secret_statement(name@, strs(parts@)),
{
    let mut r = join("CREATE OR REPLACE SECRET ", name);
    r.append(" (");
    r.append(list(parts).as_str());
    r.append(");");
    r
}

fn first_of(a: &Option<String>, b: &Option<String>) -> (r: Option<String>)
    ensures
        opt_str(r) == first_set(opt_str(*a), opt_str(*b)),
{
    match a {
        Some(x) => Some(x.clone()),
        None => crate::types::copy_opt_str(b),
    }
}

/// The parts of a secret with access keys, up to the session token.
pub open spec fn key_parts(kind: Seq<char>, c: CloudCredential) -> Seq<Seq<char>> {
    let base = seq!["TYPE "@ + kind];
    with_option(
        with_option(
            with_option(base, "KEY_ID"@, opt_str(c.key_id)),
            "SECRET"@,
            opt_str(c.secret),
        ),
        "SESSION_TOKEN"@,
        opt_str(c.session_token),
    )
}

/// The statement that ends in the extra options and the scope.
pub open spec fn finished(
    name: Seq<char>,
    parts: Seq<Seq<char>>,
    c: CloudCredential,
    scheme: Seq<char>,
    prefix: Seq<char>,
) -> Seq<char> {
    secret_statement(
        name,
        with_option(
            with_extra(parts, c.extra@),
            "SCOPE"@,
            Some(scope_of(scheme, prefix)),
        ),
    )
}

/// The secret of an S3 credential; what the credential does not set, the options do.
pub open spec fn s3_secret(
    name: Seq<char>,
    c: CloudCredential,
    prefix: Seq<char>,
    opts: OptionsView,
) -> Seq<char> {
    let a = with_option(key_parts("s3"@, c), "REGION"@, first_set(opt_str(c.region), opts.region));
    let b = with_option(a, "ENDPOINT"@, first_set(opt_str(c.endpoint), opts.endpoint));
    let d = with_option(b, "URL_STYLE"@, first_set(opt_str(c.url_style), opts.url_style));
    let e = with_switch(
        d,
        "USE_SSL"@,
        match c.use_ssl {
            Some(x) => Some(x),
            None => opts.use_ssl,
        },
    );
    finished(name, e, c, "s3"@, prefix)
}

/// The secret of a GCS credential.
pub open spec fn gcs_secret(
    name: Seq<char>,
    c: CloudCredential,
    prefix: Seq<char>,
    opts: OptionsView,
) -> Seq<char> {
    let a = with_option(
        key_parts("gcs"@, c),
        "ENDPOINT"@,
        first_set(opt_str(c.endpoint), opts.endpoint),
    );
    finished(name, a, c, "gcs"@, prefix)
}

/// The secret of an Azure credential.
pub open spec fn azure_secret(name: Seq<char>, c: CloudCredential, prefix: Seq<char>) -> Seq<char> {
    let a = with_option(seq!["TYPE azure"@], "CONNECTION_STRING"@, opt_str(c.connection_string));
    finished(name, a, c, "azure"@, prefix)
}

/// The field that an access-key credential lacks, if any.
pub open spec fn missing_key(c: CloudCredential) -> Option<Seq<char>> {
    if c.key_id is None {
        Some("key_id"@)
    } else if c.secret is None {
        Some("secret"@)
    } else {
        None
    }
}

/// What is wrong with a credential, if anything is: a missing field first, then a bad
/// extra key.
pub open spec fn credential_fault(
    missing: Option<Seq<char>>,
    provider: Seq<char>,
    c: CloudCredential,
) -> Option<DataSourceErrorView> {
    match missing {
        Some(field) => Some(DataSourceErrorView::MissingField(field, provider)),
        None => match bad_key(c.extra@, 0) {
            Some(key) => Some(DataSourceErrorView::InvalidSecretKey(key)),
            None => None,
        },
    }
}

fn finish(
    name: &str,
    parts: Vec<String>,
    c: &CloudCredential,
    scheme: &str,
    prefix: &str,
) -> (r: Result<String, DataSourceError>)
    ensures
        r is Ok <==> bad_key(c.extra@, 0) is None,
        r is Ok ==> r->Ok_0@ == finished(name@, strs(parts@), *c, scheme@, prefix@),
        r is Err ==> r->Err_0@ == DataSourceErrorView::InvalidSecretKey(
            bad_key(c.extra@, 0)->0,
        ),
{
    let mut parts = parts;
    match add_extra(&mut parts, &c.extra) {
        Ok(()) => {},
        Err(e) => {
            return Err(e);
        },
    }
    add_option(&mut parts, "SCOPE", &Some(scope_url(scheme, prefix)));
    Ok(statement(name, &parts))
}

fn first_parts(kind: &str, c: &CloudCredential) -> (r: Vec<String>)
    ensures
        strs(r@) == key_parts(kind@, *c),
{
    let mut parts: Vec<String> = Vec::new();
    parts.push(join("TYPE ", kind));
    assert(strs(parts@) =~= seq!["TYPE "@ + kind@]);
    add_option(&mut parts, "KEY_ID", &c.key_id);
    add_option(&mut parts, "SECRET", &c.secret);
    add_option(&mut parts, "SESSION_TOKEN", &c.session_token);
    parts
}

/// A storage provider: its URL schemes, the extensions it needs, and the secret that
/// scopes a job's credential.
pub trait StorageProvider {
    fn provider_id(&self) -> &'static str;

    fn url_schemes(&self) -> Vec<&'static str>;

    fn required_extensions(&self) -> Vec<&'static str>;

    /// The statement that creates the secret `name` for a credential, or `None` where
    /// the provider needs none. `decoded` is what decoding the token as JSON gives.
    fn create_secret_sql(
        &self,
        name: &str,
        cred: &ScopedCredential,
        decoded: Result<CloudCredential, String>,
        opts: &ProviderOptions,
    ) -> Result<Option<String>, DataSourceError>;
}

/// S3 and stores that speak its protocol.
#[derive(Debug, Clone, Copy, PartialEq, Eq, Structural)]
pub struct S3Provider;

/// Azure Blob storage and ADLS.
#[derive(Debug, Clone, Copy, PartialEq, Eq, Structural)]
pub struct AzureProvider;

/// Google Cloud Storage.
#[derive(Debug, Clone, Copy, PartialEq, Eq, Structural)]
pub struct GcsProvider;

/// Public HTTPS.
#[derive(Debug, Clone, Copy, PartialEq, Eq, Structural)]
pub struct HttpsProvider;

/// Local files.
#[derive(Debug, Clone, Copy, PartialEq, Eq, Structural)]
pub struct LocalFileProvider;

fn one(a: &'static str) -> (r: Vec<&'static str>)
    ensures
        str_views(r@) == seq![a@],
{
    let mut r: Vec<&'static str> = Vec::new();
    r.push(a);
    assert(str_views(r@) =~= seq![a@]);
    r
}

fn two(a: &'static str, b: &'static str) -> (r: Vec<&'static str>)
    ensures
        str_views(r@) == seq![a@, b@],
{
    let mut r: Vec<&'static str> = Vec::new();
    r.push(a);
    r.push(b);
    assert(str_views(r@) =~= seq![a@, b@]);
    r
}

/// The credential that a token yields, given what decoding it gives.
pub open spec fn credential_in(token: Seq<char>, decoded: Result<CloudCredential, String>, c: Result<
    CloudCredential,
    DataSourceErrorView,
>) -> bool {
    let t = trim_seq(token);
    if crate::datasource::sealed(t) {
        c == Err::<CloudCredential, DataSourceErrorView>(
            DataSourceErrorView::SealingKeyUnavailable,
        )
    } else if !crate::text::starts_with_seq(t, "{"@) {
        c is Ok && c->Ok_0.is_blank()
    } else {
        match decoded {
            Ok(d) => c is Ok && c->Ok_0 == d,
            Err(e) => c is Err && c->Err_0 == DataSourceErrorView::MalformedToken(e@),
        }
    }
}

/// What a provider answers, given the credential that the token yields.
pub open spec fn secret_answer(
    r: Result<Option<String>, DataSourceError>,
    fault: Option<DataSourceErrorView>,
    statement: Seq<char>,
) -> bool {
    match fault {
        Some(e) => r is Err && r->Err_0@ == e,
        None => r is Ok && opt_str(r->Ok_0) == Some(statement),
    }
}

/// What the S3 provider answers for a credential.
pub fn s3_secret_sql(name: &str, prefix: &str, c: &CloudCredential, opts: &ProviderOptions) -> (r:
    Result<Option<String>, DataSourceError>)
    ensures
        secret_answer(
            r,
            credential_fault(missing_key(*c), "s3"@, *c),
            s3_secret(name@, *c, prefix@, opts@),
        ),
{
    if c.key_id.is_none() {
        return Err(DataSourceError::MissingField("key_id".to_owned(), "s3".to_owned()));
    }
    if c.secret.is_none() {
        return Err(DataSourceError::MissingField("secret".to_owned(), "s3".to_owned()));
    }
    let mut parts = first_parts("s3", c);
    add_option(&mut parts, "REGION", &first_of(&c.region, &opts.region));
    add_option(&mut parts, "ENDPOINT", &first_of(&c.endpoint, &opts.endpoint));
    add_option(&mut parts, "URL_STYLE", &first_of(&c.url_style, &opts.url_style));
    let use_ssl = match c.use_ssl {
        Some(x) => Some(x),
        None => opts.use_ssl,
    };
    add_switch(&mut parts, "USE_SSL", use_ssl);
    match finish(name, parts, c, "s3", prefix) {
        Ok(s) => Ok(Some(s)),
        Err(e) => Err(e),
    }
}

/// What the GCS provider answers for a credential.
pub fn gcs_secret_sql(name: &str, prefix: &str, c: &CloudCredential, opts: &ProviderOptions) -> (r:
    Result<Option<String>, DataSourceError>)
    ensures
        secret_answer(
            r,
            credential_fault(missing_key(*c), "gcs"@, *c),
            gcs_secret(name@, *c, prefix@, opts@),
        ),
{
    if c.key_id.is_none() {
        return Err(DataSourceError::MissingField("key_id".to_owned(), "gcs".to_owned()));
    }
    if c.secret.is_none() {
        return Err(DataSourceError::MissingField("secret".to_owned(), "gcs".to_owned()));
    }
    let mut parts = first_parts("gcs", c);
    add_option(&mut parts, "ENDPOINT", &first_of(&c.endpoint, &opts.endpoint));
    match finish(name, parts, c, "gcs", prefix) {
        Ok(s) => Ok(Some(s)),
        Err(e) => Err(e),
    }
}

/// The field that an Azure credential lacks, if any.
pub open spec fn missing_connection(c: CloudCredential) -> Option<Seq<char>> {
    if c.connection_string is None {
        Some("connection_string"@)
    } else {
        None
    }
}

/// What the Azure provider answers for a credential.
pub fn azure_secret_sql(name: &str, prefix: &str, c: &CloudCredential) -> (r: Result<
    Option<String>,
    DataSourceError,
>)
    ensures
        secret_answer(
            r,
            credential_fault(missing_connection(*c), "az"@, *c),
            azure_secret(name@, *c, prefix@),
        ),
{
    if c.connection_string.is_none() {
        return Err(DataSourceError::MissingField("connection_string".to_owned(), "az".to_owned()));
    }
    let mut parts: Vec<String> = Vec::new();
    parts.push("TYPE azure".to_owned());
    assert(strs(parts@) =~= seq!["TYPE azure"@]);
    add_option(&mut parts, "CONNECTION_STRING", &c.connection_string);
    match finish(name, parts, c, "azure", prefix) {
        Ok(s) => Ok(Some(s)),
        Err(e) => Err(e),
    }
}

impl StorageProvider for S3Provider {
    fn provider_id(&self) -> (r: &'static str)
        ensures
            r@ == "s3"@,
    {
        "s3"
    }

    fn url_schemes(&self) -> (r: Vec<&'static str>)
        ensures
            str_views(r@) == seq!["s3"@],
    {
        one("s3")
    }

    fn required_extensions(&self) -> (r: Vec<&'static str>)
        ensures
            str_views(r@) == seq!["httpfs"@],
    {
        one("httpfs")
    }

    fn create_secret_sql(
        &self,
        name: &str,
        cred: &ScopedCredential,
        decoded: Result<CloudCredential, String>,
        opts: &ProviderOptions,
    ) -> (r: Result<Option<String>, DataSourceError>)
        ensures
            forall|c: Result<CloudCredential, DataSourceErrorView>| #[trigger]
                credential_in(cred.token@, decoded, c) && c is Err ==> r is Err && r->Err_0@
                    == c->Err_0,
            exists|c: Result<CloudCredential, DataSourceErrorView>| #[trigger]
                credential_in(cred.token@, decoded, c) && (c is Ok ==> secret_answer(
                    r,
                    credential_fault(missing_key(c->Ok_0), "s3"@, c->Ok_0),
                    s3_secret(name@, c->Ok_0, cred.prefix@, opts@),
                )),
    {
        match CloudCredential::from_scoped(cred, decoded) {
            Ok(c) => {
                let ghost seen: Result<CloudCredential, DataSourceErrorView> = Ok(c);
                assert(credential_in(cred.token@, decoded, seen));
                s3_secret_sql(name, cred.prefix.as_str(), &c, opts)
            },
            Err(e) => {
                let ghost seen: Result<CloudCredential, DataSourceErrorView> = Err(e@);
                assert(credential_in(cred.token@, decoded, seen));
                Err(e)
            },
        }
    }
}

impl StorageProvider for GcsProvider {
    fn provider_id(&self) -> (r: &'static str)
        ensures
            r@ == "gcs"@,
    {
        "gcs"
    }

    fn url_schemes(&self) -> (r: Vec<&'static str>)
        ensures
            str_views(r@) == seq!["gcs"@, "gs"@],
    {
        two("gcs", "gs")
    }

    fn required_extensions(&self) -> (r: Vec<&'static str>)
        ensures
            str_views(r@) == seq!["httpfs"@],
    {
        one("httpfs")
    }

    fn create_secret_sql(
        &self,
        name: &str,
        cred: &ScopedCredential,
        decoded: Result<CloudCredential, String>,
        opts: &ProviderOptions,
    ) -> (r: Result<Option<String>, DataSourceError>)
        ensures
            forall|c: Result<CloudCredential, DataSourceErrorView>| #[trigger]
                credential_in(cred.token@, decoded, c) && c is Err ==> r is Err && r->Err_0@
                    == c->Err_0,
            exists|c: Result<CloudCredential, DataSourceErrorView>| #[trigger]
                credential_in(cred.token@, decoded, c) && (c is Ok ==> secret_answer(
                    r,
                    credential_fault(missing_key(c->Ok_0), "gcs"@, c->Ok_0),
                    gcs_secret(name@, c->Ok_0, cred.prefix@, opts@),
                )),
    {
        match CloudCredential::from_scoped(cred, decoded) {
            Ok(c) => {
                let ghost seen: Result<CloudCredential, DataSourceErrorView> = Ok(c);
                assert(credential_in(cred.token@, decoded, seen));
                gcs_secret_sql(name, cred.prefix.as_str(), &c, opts)
            },
            Err(e) => {
                let ghost seen: Result<CloudCredential, DataSourceErrorView> = Err(e@);
                assert(credential_in(cred.token@, decoded, seen));
                Err(e)
            },
        }
    }
}

impl StorageProvider for AzureProvider {
    fn provider_id(&self) -> (r: &'static str)
        ensures
            r@ == "az"@,
    {
        "az"
    }

    fn url_schemes(&self) -> (r: Vec<&'static str>)
        ensures
            str_views(r@) == seq!["az"@, "abfss"@, "azure"@],
    {
        let mut r = two("az", "abfss");
        let ghost before = str_views(r@);
        r.push("azure");
        assert(str_views(r@) =~= before.push("azure"@));
        assert(str_views(r@) =~= seq!["az"@, "abfss"@, "azure"@]);
        r
    }

    fn required_extensions(&self) -> (r: Vec<&'static str>)
        ensures
            str_views(r@) == seq!["azure"@],
    {
        one("azure")
    }

    fn create_secret_sql(
        &self,
        name: &str,
        cred: &ScopedCredential,
        decoded: Result<CloudCredential, String>,
        opts: &ProviderOptions,
    ) -> (r: Result<Option<String>, DataSourceError>)
        ensures
            forall|c: Result<CloudCredential, DataSourceErrorView>| #[trigger]
                credential_in(cred.token@, decoded, c) && c is Err ==> r is Err && r->Err_0@
                    == c->Err_0,
            exists|c: Result<CloudCredential, DataSourceErrorView>| #[trigger]
                credential_in(cred.token@, decoded, c) && (c is Ok ==> secret_answer(
                    r,
                    credential_fault(missing_connection(c->Ok_0), "az"@, c->Ok_0),
                    azure_secret(name@, c->Ok_0, cred.prefix@),
                )),
    {
        match CloudCredential::from_scoped(cred, decoded) {
            Ok(c) => {
                let ghost seen: Result<CloudCredential, DataSourceErrorView> = Ok(c);
                assert(credential_in(cred.token@, decoded, seen));
                azure_secret_sql(name, cred.prefix.as_str(), &c)
            },
            Err(e) => {
                let ghost seen: Result<CloudCredential, DataSourceErrorView> = Err(e@);
                assert(credential_in(cred.token@, decoded, seen));
                Err(e)
            },
        }
    }
}

impl StorageProvider for HttpsProvider {
    fn provider_id(&self) -> (r: &'static str)
        ensures
            r@ == "https"@,
    {
        "https"
    }

    fn url_schemes(&self) -> (r: Vec<&'static str>)
        ensures
            str_views(r@) == seq!["http"@, "https"@],
    {
        two("http", "https")
    }

    fn required_extensions(&self) -> (r: Vec<&'static str>)
        ensures
            str_views(r@) == seq!["httpfs"@],
    {
        one("httpfs")
    }

    fn create_secret_sql(
        &self,
        name: &str,
        cred: &ScopedCredential,
        decoded: Result<CloudCredential, String>,
        opts: &ProviderOptions,
    ) -> (r: Result<Option<String>, DataSourceError>)
        ensures
            r is Ok && r->Ok_0 is None,
    {
        Ok(None)
    }
}

impl StorageProvider for LocalFileProvider {
    fn provider_id(&self) -> (r: &'static str)
        ensures
            r@ == "local-fake"@,
    {
        "local-fake"
    }

    fn url_schemes(&self) -> (r: Vec<&'static str>)
        ensures
            str_views(r@) == seq!["file"@],
    {
        one("file")
    }

    fn required_extensions(&self) -> (r: Vec<&'static str>)
        ensures
            r@.len() == 0,
    {
        Vec::new()
    }

    fn create_secret_sql(
        &self,
        name: &str,
        cred: &ScopedCredential,
        decoded: Result<CloudCredential, String>,
        opts: &ProviderOptions,
    ) -> (r: Result<Option<String>, DataSourceError>)
        ensures
            r is Ok && r->Ok_0 is None,
    {
        Ok(None)
    }
}

/// A text with its quotes doubled.
pub open spec fn doubled(s: Seq<char>) -> Seq<char>
    decreases s.len(),
{
    if s.len() == 0 {
        Seq::empty()
    } else if s[0] == '\'' {
        seq!['\'', '\''] + doubled(s.skip(1))
    } else {
        seq![s[0]] + doubled(s.skip(1))
    }
}

pub(crate) proof fn quotes_are_doubled(s: Seq<char>)
    ensures
        replace_seq(s, "'"@, "''"@) == doubled(s),
        literal_of(s) == seq!['\''] + doubled(s) + seq!['\''],
    decreases s.len(),
{
    reveal_strlit("'");
    reveal_strlit("''");
    assert("'"@ =~= seq!['\'']);
    assert("''"@ =~= seq!['\'', '\'']);
    if s.len() > 0 {
        quotes_are_doubled(s.skip(1));
        assert(s.subrange(1, s.len() as int) =~= s.skip(1));
        assert(s.subrange(0, 1) =~= seq![s[0]]);
        assert(crate::text::occurs_at(s, "'"@, 0) == (s[0] == '\'')) by {
            if crate::text::occurs_at(s, "'"@, 0) {
                assert(s.subrange(0, 1)[0] == "'"@[0]);
            }
        }
    } else {
        assert(replace_seq(s, "'"@, "''"@) =~= doubled(s));
    }
}

proof fn doubled_reads_back(pre: Seq<char>, x: Seq<char>, post: Seq<char>)
    requires
        post.len() > 0 ==> post[0] != '\'',
    ensures
        ({
            let s = pre + doubled(x) + seq!['\''] + post;
            &&& literal_body(s, pre.len() as int) == (x, (pre.len() + doubled(x).len() + 1) as int)
            &&& literal_closes(s, pre.len() as int)
        }),
    decreases x.len(),
{
    let s = pre + doubled(x) + seq!['\''] + post;
    let i = pre.len() as int;
    if x.len() == 0 {
        assert(s[i] == '\'');
        if post.len() > 0 {
            assert(s[i + 1] == post[0]);
        }
        assert(literal_body(s, i).0 =~= x);
    } else {
        let y = x.skip(1);
        if x[0] == '\'' {
            let p = pre + seq!['\'', '\''];
            doubled_reads_back(p, y, post);
            assert(p + doubled(y) + seq!['\''] + post =~= s);
            assert(s[i] == '\'' && s[i + 1] == '\'');
        } else {
            let p = pre + seq![x[0]];
            doubled_reads_back(p, y, post);
            assert(p + doubled(y) + seq!['\''] + post =~= s);
            assert(s[i] == x[0]);
        }
        assert(seq![x[0]] + y =~= x);
    }
}

/// A text that is written as a literal is read back as it was, wherever it stands.
pub proof fn literals_read_back(pre: Seq<char>, x: Seq<char>, post: Seq<char>)
    requires
        post.len() > 0 ==> post[0] != '\'',
    ensures
        ({
            let s = pre + literal_of(x) + post;
            let i = pre.len() as int;
            &&& s[i] == '\''
            &&& literal_body(s, i + 1) == (x, (pre.len() + literal_of(x).len()) as int)
            &&& literal_closes(s, i + 1)
        }),
{
    quotes_are_doubled(x);
    let p = pre + seq!['\''];
    doubled_reads_back(p, x, post);
    assert(p + doubled(x) + seq!['\''] + post =~= pre + literal_of(x) + post);
}

/// An object is signed at the URL of the first input with its URI.
pub proof fn the_first_signed_input_counts(signed: Seq<SignedView>, uri: Seq<char>, i: int)
    requires
        uri.len() > 0,
        0 <= i <= signed.len(),
        forall|k: int| 0 <= k < i ==> (#[trigger] signed[k]).uri != uri,
        i < signed.len() ==> signed[i].uri == uri,
    ensures
        url_of(signed, uri) == (if i < signed.len() {
            Some(signed[i].url)
        } else {
            None
        }),
    decreases signed.len(),
{
    if signed.len() > 0 && i > 0 {
        let rest = signed.subrange(1, signed.len() as int);
        assert(signed[0].uri != uri);
        assert forall|k: int| 0 <= k < i - 1 implies (#[trigger] rest[k]).uri != uri by {
            assert(rest[k] == signed[k + 1]);
        }
        the_first_signed_input_counts(rest, uri, i - 1);
    }
}

/// Characters that begin neither a literal nor a comment nor other quoted text.
pub open spec fn plain_char(c: char) -> bool {
    c != '\'' && c != '"' && c != '-' && c != '/' && c != '$'
}

/// In a query, the literal of a signed object behind plain text is replaced by that of its
/// URL, and the query goes on behind it.
pub proof fn signed_objects_are_replaced(
    pre: Seq<char>,
    uri: Seq<char>,
    post: Seq<char>,
    signed: Seq<SignedView>,
)
    requires
        forall|i: int| 0 <= i < pre.len() ==> plain_char(#[trigger] pre[i]),
        forall|i: int| 0 <= i + 1 < pre.len() ==> (#[trigger] pre[i]) != 'e' && pre[i] != 'E'
            || pre[i + 1] != '\'',
        pre.len() > 0 ==> pre.last() != 'e' && pre.last() != 'E',
        post.len() > 0 ==> post[0] != '\'',
        url_of(signed, uri) is Some,
    ensures
        ({
            let s = pre + literal_of(uri) + post;
            let end = (pre.len() + literal_of(uri).len()) as int;
            rewritten(s, signed, 0) == pre + literal_of(url_of(signed, uri)->0) + rewritten(
                s,
                signed,
                end,
            )
        }),
{
    let s = pre + literal_of(uri) + post;
    let n = pre.len() as int;
    literals_read_back(pre, uri, post);
    plain_stays(s, signed, 0, n);
    assert(s[n] == '\'');
    signed_literals_are_replaced(s, signed, n);
    assert(s.subrange(0, n) =~= pre);
    let end = (pre.len() + literal_of(uri).len()) as int;
    assert(pre + (literal_of(url_of(signed, uri)->0) + rewritten(s, signed, end)) =~= pre
        + literal_of(url_of(signed, uri)->0) + rewritten(s, signed, end));
}

proof fn plain_stays(s: Seq<char>, signed: Seq<SignedView>, i: int, n: int)
    requires
        0 <= i <= n < s.len(),
        s[n] == '\'',
        forall|k: int| i <= k < n ==> plain_char(#[trigger] s[k]),
        n > i ==> s[n - 1] != 'e' && s[n - 1] != 'E',
    ensures
        rewritten(s, signed, i) == s.subrange(i, n) + rewritten(s, signed, n),
    decreases n - i,
{
    if i < n {
        assert(plain_char(s[i]));
        if i + 1 < n {
            assert(plain_char(s[i + 1]));
        }
        assert(passed_over(s, i) is None);
        plain_stays(s, signed, i + 1, n);
        assert(seq![s[i]] + (s.subrange(i + 1, n) + rewritten(s, signed, n)) =~= s.subrange(i, n)
            + rewritten(s, signed, n));
    } else {
        assert(s.subrange(i, n) + rewritten(s, signed, n) =~= rewritten(s, signed, n));
    }
}

/// An option's key is a plain name: a letter or an underscore, then letters, underscores
/// and digits.
pub proof fn keys_are_plain_names(s: Seq<char>)
    ensures
        plain_key(s) <==> s.len() > 0 && !('0' <= s[0] && s[0] <= '9') && forall|i: int|
            0 <= i < s.len() ==> (#[trigger] s[i] == '_' || ('A' <= s[i] && s[i] <= 'Z') || ('0'
                <= s[i] && s[i] <= '9')),
{
}

/// A scope is a directory's URL: the prefix below the scheme, without a slash in front, or
/// as it is where it names a scheme itself.
pub proof fn scopes_are_directories(scheme: Seq<char>, dir: Seq<char>, url: Seq<char>)
    requires
        dir.len() > 0,
        dir[0] != '/',
        dir.last() != '/',
        !crate::text::is_white(dir[0]) && !crate::text::is_white(dir.last()),
        !contains_seq(dir, "://"@),
        !contains_seq(seq!['/'] + dir, "://"@),
        !contains_seq(dir + seq!['/'], "://"@),
        url.len() > 0,
        url.last() != '/',
        !crate::text::is_white(url[0]) && !crate::text::is_white(url.last()),
        contains_seq(url, "://"@),
    ensures
        scope_of(scheme, dir) == scheme + "://"@ + dir + "/"@,
        scope_of(scheme, seq!['/'] + dir) == scheme + "://"@ + dir + "/"@,
        scope_of(scheme, dir + seq!['/']) == scheme + "://"@ + dir + "/"@,
        scope_of(scheme, url) == url + "/"@,
{
    reveal_strlit("/");
    reveal_strlit("://");
    let none = Seq::<char>::empty();
    crate::text::white_space_is_taken_off(none, dir, none);
    assert(none + dir + none =~= dir);
    crate::text::white_space_is_taken_off(none, url, none);
    assert(none + url + none =~= url);
    let slashed = seq!['/'] + dir;
    crate::text::blanks_are_white_space('/');
    crate::text::white_space_is_taken_off(none, slashed, none);
    assert(none + slashed + none =~= slashed);
    let closed = dir + seq!['/'];
    assert(closed[0] == dir[0]);
    crate::text::white_space_is_taken_off(none, closed, none);
    assert(none + closed + none =~= closed);
    assert(without_slashes(dir) == dir);
    assert(slashed.subrange(1, slashed.len() as int) =~= dir);
    assert(without_slashes(slashed) == dir);
    assert(without_slashes(closed) == closed);
    let a = scheme + "://"@ + dir;
    assert(a.last() == dir.last());
    assert(!ends_with_seq(a, "/"@)) by {
        if ends_with_seq(a, "/"@) {
            assert(a.subrange(a.len() - 1, a.len() as int)[0] == a.last());
        }
    }
    let b = scheme + "://"@ + closed;
    assert(b =~= a + "/"@);
    assert(b.subrange(b.len() - 1, b.len() as int) =~= "/"@);
    assert(!ends_with_seq(url, "/"@)) by {
        if ends_with_seq(url, "/"@) {
            assert(url.subrange(url.len() - 1, url.len() as int)[0] == url.last());
        }
    }
}

/// An option as it stands in a statement, where it is set.
pub open spec fn option_part(name: Seq<char>, value: Option<Seq<char>>) -> Seq<Seq<char>> {
    match value {
        Some(v) => seq![name + " '"@ + doubled(v) + "'"@],
        None => Seq::empty(),
    }
}

/// Parts with commas between them.
pub open spec fn with_commas(parts: Seq<Seq<char>>) -> Seq<char>
    decreases parts.len(),
{
    if parts.len() == 0 {
        Seq::empty()
    } else if parts.len() == 1 {
        parts[0]
    } else {
        parts[0] + ", "@ + with_commas(parts.skip(1))
    }
}

proof fn commas_from_the_front(parts: Seq<Seq<char>>)
    ensures
        listed(parts) == with_commas(parts),
    decreases parts.len(),
{
    if parts.len() == 2 {
        assert(parts.drop_last().len() == 1);
        assert(parts.skip(1).len() == 1);
        assert(listed(parts.drop_last()) == parts[0]);
        assert(with_commas(parts.skip(1)) == parts[1]);
    } else if parts.len() > 2 {
        let head = parts.drop_last();
        let tail = parts.skip(1);
        commas_from_the_front(head);
        commas_from_the_front(tail);
        commas_from_the_front(head.skip(1));
        assert(tail.drop_last() =~= head.skip(1));
        assert(tail.last() == parts.last());
        assert(listed(tail) == listed(head.skip(1)) + ", "@ + parts.last());
        assert(with_commas(head) == parts[0] + ", "@ + with_commas(head.skip(1)));
        assert(parts[0] + ", "@ + with_commas(head.skip(1)) + ", "@ + parts.last() =~= parts[0]
            + ", "@ + (with_commas(head.skip(1)) + ", "@ + parts.last()));
    }
}

proof fn option_stands(parts: Seq<Seq<char>>, name: Seq<char>, value: Option<Seq<char>>)
    ensures
        with_option(parts, name, value) == parts + option_part(name, value),
{
    reveal_strlit("'");
    reveal_strlit(" '");
    reveal_strlit(" ");
    if value is Some {
        let v = value->0;
        quotes_are_doubled(v);
        assert(name + " "@ + literal_of(v) =~= name + " '"@ + doubled(v) + "'"@);
        assert(with_option(parts, name, value) =~= parts + option_part(name, value));
    } else {
        assert(parts + option_part(name, value) =~= parts);
    }
}

/// The further options as they stand in a statement.
pub open spec fn extra_parts(extra: Seq<ExtraView>) -> Seq<Seq<char>> {
    Seq::new(
        extra.len(),
        |i: int| uppercased(extra[i].key) + " '"@ + doubled(extra[i].value) + "'"@,
    )
}

proof fn extras_stand(parts: Seq<Seq<char>>, extra: Seq<ExtraView>)
    ensures
        with_extra(parts, extra) == parts + extra_parts(extra),
    decreases extra.len(),
{
    reveal_strlit("'");
    reveal_strlit(" '");
    reveal_strlit(" ");
    if extra.len() > 0 {
        extras_stand(parts, extra.drop_last());
        let e = extra.last();
        quotes_are_doubled(e.value);
        assert(uppercased(e.key) + " "@ + literal_of(e.value) =~= uppercased(e.key) + " '"@
            + doubled(e.value) + "'"@);
        assert(extra_parts(extra) =~= extra_parts(extra.drop_last()).push(
            uppercased(e.key) + " '"@ + doubled(e.value) + "'"@,
        ));
        assert(with_extra(parts, extra) =~= parts + extra_parts(extra));
    } else {
        assert(parts + extra_parts(extra) =~= parts);
    }
}

proof fn statement_ends(
    name: Seq<char>,
    parts: Seq<Seq<char>>,
    c: CloudCredential,
    scheme: Seq<char>,
    prefix: Seq<char>,
)
    ensures
        finished(name, parts, c, scheme, prefix) == "CREATE OR REPLACE SECRET "@ + name + " ("@
            + with_commas(
            parts + extra_parts(c.extra@) + option_part("SCOPE"@, Some(scope_of(scheme, prefix))),
        ) + ");"@,
{
    extras_stand(parts, c.extra@);
    option_stands(with_extra(parts, c.extra@), "SCOPE"@, Some(scope_of(scheme, prefix)));
    commas_from_the_front(
        parts + extra_parts(c.extra@) + option_part("SCOPE"@, Some(scope_of(scheme, prefix))),
    );
}

/// The secret of an S3 credential: its keys and session, where and how to reach the store,
/// by the credential itself before the configuration, the further options and the scope.
pub proof fn s3_secrets_hold_the_credential(
    name: Seq<char>,
    c: CloudCredential,
    prefix: Seq<char>,
    opts: OptionsView,
)
    ensures
        ({
            let either = |a: Option<Seq<char>>, b: Option<Seq<char>>| if a is Some {
                a
            } else {
                b
            };
            let ssl = if c.use_ssl is Some {
                c.use_ssl
            } else {
                opts.use_ssl
            };
            let switch = match ssl {
                Some(true) => seq!["USE_SSL true"@],
                Some(false) => seq!["USE_SSL false"@],
                None => Seq::empty(),
            };
            s3_secret(name, c, prefix, opts) == "CREATE OR REPLACE SECRET "@ + name + " ("@
                + with_commas(
                seq!["TYPE s3"@] + option_part("KEY_ID"@, opt_str(c.key_id)) + option_part(
                    "SECRET"@,
                    opt_str(c.secret),
                ) + option_part("SESSION_TOKEN"@, opt_str(c.session_token)) + option_part(
                    "REGION"@,
                    either(opt_str(c.region), opts.region),
                ) + option_part("ENDPOINT"@, either(opt_str(c.endpoint), opts.endpoint))
                    + option_part("URL_STYLE"@, either(opt_str(c.url_style), opts.url_style))
                    + switch + extra_parts(c.extra@) + option_part(
                    "SCOPE"@,
                    Some(scope_of("s3"@, prefix)),
                ),
            ) + ");"@
        }),
{
    reveal_strlit("TYPE ");
    reveal_strlit("s3");
    reveal_strlit("TYPE s3");
    reveal_strlit("USE_SSL");
    reveal_strlit("USE_SSL true");
    reveal_strlit("USE_SSL false");
    reveal_strlit("true");
    reveal_strlit("false");
    reveal_strlit(" ");
    let p0 = seq!["TYPE "@ + "s3"@];
    assert("TYPE "@ + "s3"@ =~= "TYPE s3"@);
    option_stands(p0, "KEY_ID"@, opt_str(c.key_id));
    let p1 = p0 + option_part("KEY_ID"@, opt_str(c.key_id));
    option_stands(p1, "SECRET"@, opt_str(c.secret));
    let p2 = p1 + option_part("SECRET"@, opt_str(c.secret));
    option_stands(p2, "SESSION_TOKEN"@, opt_str(c.session_token));
    let p3 = p2 + option_part("SESSION_TOKEN"@, opt_str(c.session_token));
    let region = first_set(opt_str(c.region), opts.region);
    option_stands(p3, "REGION"@, region);
    let p4 = p3 + option_part("REGION"@, region);
    let endpoint = first_set(opt_str(c.endpoint), opts.endpoint);
    option_stands(p4, "ENDPOINT"@, endpoint);
    let p5 = p4 + option_part("ENDPOINT"@, endpoint);
    let style = first_set(opt_str(c.url_style), opts.url_style);
    option_stands(p5, "URL_STYLE"@, style);
    let p6 = p5 + option_part("URL_STYLE"@, style);
    let ssl = if c.use_ssl is Some {
        c.use_ssl
    } else {
        opts.use_ssl
    };
    let switch = match ssl {
        Some(true) => seq!["USE_SSL true"@],
        Some(false) => seq!["USE_SSL false"@],
        None => Seq::empty(),
    };
    assert("USE_SSL"@ + " "@ + "true"@ =~= "USE_SSL true"@);
    assert("USE_SSL"@ + " "@ + "false"@ =~= "USE_SSL false"@);
    assert(with_switch(p6, "USE_SSL"@, ssl) =~= p6 + switch);
    statement_ends(name, p6 + switch, c, "s3"@, prefix);
}

/// The secret of a GCS credential: its keys and session, the endpoint, the further options
/// and the scope.
pub proof fn gcs_secrets_hold_the_credential(
    name: Seq<char>,
    c: CloudCredential,
    prefix: Seq<char>,
    opts: OptionsView,
)
    ensures
        ({
            let endpoint = if c.endpoint is Some {
                opt_str(c.endpoint)
            } else {
                opts.endpoint
            };
            gcs_secret(name, c, prefix, opts) == "CREATE OR REPLACE SECRET "@ + name + " ("@
                + with_commas(
                seq!["TYPE gcs"@] + option_part("KEY_ID"@, opt_str(c.key_id)) + option_part(
                    "SECRET"@,
                    opt_str(c.secret),
                ) + option_part("SESSION_TOKEN"@, opt_str(c.session_token)) + option_part(
                    "ENDPOINT"@,
                    endpoint,
                ) + extra_parts(c.extra@) + option_part("SCOPE"@, Some(scope_of("gcs"@, prefix))),
            ) + ");"@
        }),
{
    reveal_strlit("TYPE ");
    reveal_strlit("gcs");
    reveal_strlit("TYPE gcs");
    let p0 = seq!["TYPE "@ + "gcs"@];
    assert("TYPE "@ + "gcs"@ =~= "TYPE gcs"@);
    option_stands(p0, "KEY_ID"@, opt_str(c.key_id));
    let p1 = p0 + option_part("KEY_ID"@, opt_str(c.key_id));
    option_stands(p1, "SECRET"@, opt_str(c.secret));
    let p2 = p1 + option_part("SECRET"@, opt_str(c.secret));
    option_stands(p2, "SESSION_TOKEN"@, opt_str(c.session_token));
    let p3 = p2 + option_part("SESSION_TOKEN"@, opt_str(c.session_token));
    let endpoint = first_set(opt_str(c.endpoint), opts.endpoint);
    option_stands(p3, "ENDPOINT"@, endpoint);
    statement_ends(name, p3 + option_part("ENDPOINT"@, endpoint), c, "gcs"@, prefix);
}

/// The secret of an Azure credential: its connection string, the further options and the
/// scope.
pub proof fn azure_secrets_hold_the_credential(
    name: Seq<char>,
    c: CloudCredential,
    prefix: Seq<char>,
)
    ensures
        azure_secret(name, c, prefix) == "CREATE OR REPLACE SECRET "@ + name + " ("@ + with_commas(
            seq!["TYPE azure"@] + option_part("CONNECTION_STRING"@, opt_str(c.connection_string))
                + extra_parts(c.extra@) + option_part("SCOPE"@, Some(scope_of("azure"@, prefix))),
        ) + ");"@,
{
    let p0 = seq!["TYPE azure"@];
    option_stands(p0, "CONNECTION_STRING"@, opt_str(c.connection_string));
    statement_ends(
        name,
        p0 + option_part("CONNECTION_STRING"@, opt_str(c.connection_string)),
        c,
        "azure"@,
        prefix,
    );
}

/// A credential lacks what it needs before a key is bad: the key, then its secret; or the
/// connection string.
pub proof fn missing_fields_are_named(c: CloudCredential)
    ensures
        c.key_id is None ==> missing_key(c) == Some("key_id"@),
        c.key_id is Some && c.secret is None ==> missing_key(c) == Some("secret"@),
        c.key_id is Some && c.secret is Some ==> missing_key(c) is None,
        c.connection_string is None ==> missing_connection(c) == Some("connection_string"@),
        c.connection_string is Some ==> missing_connection(c) is None,
{
}

/// A key of the further options is refused where it is no plain name, the first such one.
pub proof fn bad_keys_are_refused(extra: Seq<ExtraView>, from: int, i: int)
    requires
        0 <= from <= i <= extra.len(),
        forall|k: int| from <= k < i ==> plain_key(uppercased((#[trigger] extra[k]).key)),
        i < extra.len() ==> !plain_key(uppercased(extra[i].key)),
    ensures
        bad_key(extra, from) == (if i < extra.len() {
            Some(extra[i].key)
        } else {
            None
        }),
    decreases i - from,
{
    if from < i {
        assert(plain_key(uppercased(extra[from].key)));
        bad_keys_are_refused(extra, from + 1, i);
    }
}

/// Letters, digits, `-`, `_`, `.` and `~` are written as they are, and so is a slash unless
/// it is to be encoded; any other byte is written as a percent sign and its two digits.
pub proof fn plain_bytes_are_kept(b: u8, encode_slash: bool)
    ensures
        uri_char(b as char, encode_slash) && b as char != '%' ==> encoded_byte(b, encode_slash)
            == seq![b as char],
        !uri_char(b as char, encode_slash) || b as char == '%' ==> ({
            let e = encoded_byte(b, encode_slash);
            &&& e.len() == 3
            &&& e[0] == '%'
            &&& upper_hex_value(e[1]) == Some(b as int / 16)
            &&& upper_hex_value(e[2]) == Some(b as int % 16)
        }),
{
}

} // verus!
