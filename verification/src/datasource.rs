//! Data formats, storage providers and the engine's storage setup.

pub mod options;
pub mod secrets;
pub mod setup;

use vstd::prelude::*;
use crate::datasource::options::OptionMap;
use crate::engine::ScopedCredential;
use crate::scan::{join, strip_prefix, strip_prefix_seq};
use crate::text::{
    ascii_lower_seq, ascii_lowercase, chars_of, skip_white, starts_with, starts_with_seq, str_eq,
    is_white, string_of_range, trim, trim_seq, trim_start_seq,
};

verus! {

/// Errors from the data-source layer.
#[derive(Debug, Clone, PartialEq, Eq)]
pub enum DataSourceError {
    UnknownProvider(String),
    /// A field that the provider needs is missing.
    MissingField(String, String),
    MalformedToken(String),
    UnsupportedFormat(String),
    /// A sealed token came, and there is no key to open it.
    SealingKeyUnavailable,
    /// A sealed token could not be opened.
    SealOpenFailed,
    /// An extra option's key is not a plain identifier.
    InvalidSecretKey(String),
}

/// `DataSourceError` over mathematical values.
#[verifier::ext_equal]
pub enum DataSourceErrorView {
    UnknownProvider(Seq<char>),
    MissingField(Seq<char>, Seq<char>),
    MalformedToken(Seq<char>),
    UnsupportedFormat(Seq<char>),
    SealingKeyUnavailable,
    SealOpenFailed,
    InvalidSecretKey(Seq<char>),
}

impl View for DataSourceError {
    type V = DataSourceErrorView;

    open spec fn view(&self) -> DataSourceErrorView {
        match self {
            DataSourceError::UnknownProvider(s) => DataSourceErrorView::UnknownProvider(s@),
            DataSourceError::MissingField(f, p) => DataSourceErrorView::MissingField(f@, p@),
            DataSourceError::MalformedToken(s) => DataSourceErrorView::MalformedToken(s@),
            DataSourceError::UnsupportedFormat(s) => DataSourceErrorView::UnsupportedFormat(s@),
            DataSourceError::SealingKeyUnavailable => DataSourceErrorView::SealingKeyUnavailable,
            DataSourceError::SealOpenFailed => DataSourceErrorView::SealOpenFailed,
            DataSourceError::InvalidSecretKey(s) => DataSourceErrorView::InvalidSecretKey(s@),
        }
    }
}

impl DataSourceErrorView {
    /// The text of the error. It never holds key material.
    pub open spec fn text(self) -> Seq<char> {
        match self {
            DataSourceErrorView::UnknownProvider(s) => "unknown storage provider: "@ + s,
            DataSourceErrorView::MissingField(f, p) => "credential is missing required field `"@ + f
                + "` for provider `"@ + p + "`"@,
            DataSourceErrorView::MalformedToken(s) => "malformed credential token: "@ + s,
            DataSourceErrorView::UnsupportedFormat(s) => "unsupported data format: "@ + s,
            DataSourceErrorView::SealingKeyUnavailable =>
                "sealed credential supplied but no worker sealing key is available to open it"@,
            DataSourceErrorView::SealOpenFailed =>
                "failed to open sealed credential (wrong recipient key or tampered ciphertext)"@,
            DataSourceErrorView::InvalidSecretKey(s) => "invalid secret option key `"@ + s
                + "` (must match [A-Z_][A-Z0-9_]*)"@,
        }
    }
}

impl DataSourceError {
    /// The text of the error.
    pub fn message(&self) -> (r: String)
        ensures
            r@ == self@.text(),
    {
        match self {
            DataSourceError::UnknownProvider(s) => join("unknown storage provider: ", s.as_str()),
            DataSourceError::MissingField(f, p) => {
                let mut r = join("credential is missing required field `", f.as_str());
                r.append("` for provider `");
                r.append(p.as_str());
                r.append("`");
                r
            },
            DataSourceError::MalformedToken(s) => join("malformed credential token: ", s.as_str()),
            DataSourceError::UnsupportedFormat(s) => join("unsupported data format: ", s.as_str()),
            DataSourceError::SealingKeyUnavailable =>
                "sealed credential supplied but no worker sealing key is available to open it".to_owned(),
            DataSourceError::SealOpenFailed =>
                "failed to open sealed credential (wrong recipient key or tampered ciphertext)".to_owned(),
            DataSourceError::InvalidSecretKey(s) => join(
                join("invalid secret option key `", s.as_str()).as_str(),
                "` (must match [A-Z_][A-Z0-9_]*)",
            ),
        }
    }
}

/// A data format. Names that are not known are kept as they are.
#[derive(Debug, Clone, PartialEq, Eq)]
pub enum DataFormat {
    Csv,
    Json,
    Parquet,
    Delta,
    Iceberg,
    Other(String),
}

/// `DataFormat` over mathematical values.
pub enum FormatView {
    Csv,
    Json,
    Parquet,
    Delta,
    Iceberg,
    Other(Seq<char>),
}

impl View for DataFormat {
    type V = FormatView;

    open spec fn view(&self) -> FormatView {
        match self {
            DataFormat::Csv => FormatView::Csv,
            DataFormat::Json => FormatView::Json,
            DataFormat::Parquet => FormatView::Parquet,
            DataFormat::Delta => FormatView::Delta,
            DataFormat::Iceberg => FormatView::Iceberg,
            DataFormat::Other(s) => FormatView::Other(s@),
        }
    }
}

/// The format that a name stands for, whatever its case and surrounding space.
pub open spec fn format_named(s: Seq<char>) -> FormatView {
    let name = ascii_lower_seq(trim_seq(s));
    if name == "csv"@ {
        FormatView::Csv
    } else if name == "json"@ || name == "ndjson"@ {
        FormatView::Json
    } else if name == "parquet"@ {
        FormatView::Parquet
    } else if name == "delta"@ || name == "deltalake"@ || name == "delta_lake"@ {
        FormatView::Delta
    } else if name == "iceberg"@ {
        FormatView::Iceberg
    } else {
        FormatView::Other(name)
    }
}

/// The texts behind string slices.
pub open spec fn str_views(v: Seq<&'static str>) -> Seq<Seq<char>> {
    v.map_values(|s: &'static str| s@)
}

impl DataFormat {
    pub fn parse(s: &str) -> (r: DataFormat)
        ensures
            r@ == format_named(s@),
    {
        let name = ascii_lowercase(trim(s).as_str());
        let n = name.as_str();
        if str_eq(n, "csv") {
            DataFormat::Csv
        } else if str_eq(n, "json") || str_eq(n, "ndjson") {
            DataFormat::Json
        } else if str_eq(n, "parquet") {
            DataFormat::Parquet
        } else if str_eq(n, "delta") || str_eq(n, "deltalake") || str_eq(n, "delta_lake") {
            DataFormat::Delta
        } else if str_eq(n, "iceberg") {
            DataFormat::Iceberg
        } else {
            DataFormat::Other(name)
        }
    }

    pub fn as_str(&self) -> (r: &str)
        ensures
            r@ == (match self@ {
                FormatView::Csv => "csv"@,
                FormatView::Json => "json"@,
                FormatView::Parquet => "parquet"@,
                FormatView::Delta => "delta"@,
                FormatView::Iceberg => "iceberg"@,
                FormatView::Other(s) => s,
            }),
    {
        match self {
            DataFormat::Csv => "csv",
            DataFormat::Json => "json",
            DataFormat::Parquet => "parquet",
            DataFormat::Delta => "delta",
            DataFormat::Iceberg => "iceberg",
            DataFormat::Other(s) => s.as_str(),
        }
    }

    /// The engine extensions that reading the format takes.
    pub fn required_extensions(&self) -> (r: Vec<&'static str>)
        ensures
            str_views(r@) == (match self@ {
                FormatView::Json => seq!["json"@],
                FormatView::Parquet => seq!["parquet"@],
                FormatView::Delta => seq!["delta"@, "parquet"@],
                FormatView::Iceberg => seq!["iceberg"@, "parquet"@],
                _ => Seq::empty(),
            }),
    {
        let mut r: Vec<&'static str> = Vec::new();
        match self {
            DataFormat::Json => {
                r.push("json");
            },
            DataFormat::Parquet => {
                r.push("parquet");
            },
            DataFormat::Delta => {
                r.push("delta");
                r.push("parquet");
            },
            DataFormat::Iceberg => {
                r.push("iceberg");
                r.push("parquet");
            },
            _ => {},
        }
        proof {
            let want = match self@ {
                FormatView::Json => seq!["json"@],
                FormatView::Parquet => seq!["parquet"@],
                FormatView::Delta => seq!["delta"@, "parquet"@],
                FormatView::Iceberg => seq!["iceberg"@, "parquet"@],
                _ => Seq::empty(),
            };
            assert(str_views(r@) =~= want);
        }
        r
    }
}

/// Short-lived cloud credential material, as a token carries it.
#[derive(Debug, Clone, PartialEq, Eq)]
pub struct CloudCredential {
    pub key_id: Option<String>,
    pub secret: Option<String>,
    pub session_token: Option<String>,
    pub connection_string: Option<String>,
    pub region: Option<String>,
    pub endpoint: Option<String>,
    /// `path` or `vhost`.
    pub url_style: Option<String>,
    pub use_ssl: Option<bool>,
    /// Further options.
    pub extra: OptionMap,
}

/// The mark at the start of a sealed token.
pub const SEALED_TOKEN_PREFIX: &'static str = "sealed:v1:";

/// Whether a token is sealed.
pub open spec fn sealed(token: Seq<char>) -> bool {
    starts_with_seq(trim_start_seq(token), SEALED_TOKEN_PREFIX@)
}

/// What opening a sealed token's payload gave.
#[derive(Debug, Clone, PartialEq, Eq)]
pub enum Opened {
    /// The payload is no sealed blob, or the key does not open it.
    Failed,
    /// The blob was opened; what it holds is no credential, and why.
    Malformed(String),
    Credential(CloudCredential),
}

fn trim_start(s: &str) -> (r: String)
    ensures
        r@ == trim_start_seq(s@),
{
    let v = chars_of(s);
    let n: usize = v.len();
    let i = skip_white(&v, 0, n);
    assert(v@.subrange(0, n as int) =~= v@);
    string_of_range(&v, i, n)
}

impl CloudCredential {
    /// Whether the credential holds nothing.
    pub open spec fn is_blank(self) -> bool {
        &&& self.key_id is None
        &&& self.secret is None
        &&& self.session_token is None
        &&& self.connection_string is None
        &&& self.region is None
        &&& self.endpoint is None
        &&& self.url_style is None
        &&& self.use_ssl is None
        &&& self.extra@.len() == 0
    }

    /// A credential that holds nothing.
    pub fn blank() -> (r: CloudCredential)
        ensures
            r.is_blank(),
    {
        CloudCredential {
            key_id: None,
            secret: None,
            session_token: None,
            connection_string: None,
            region: None,
            endpoint: None,
            url_style: None,
            use_ssl: None,
            extra: OptionMap::new(),
        }
    }

    /// The credential in a plain token. `decoded` is what decoding the trimmed token as
    /// JSON gives: the credential, or why it is none. A token that is no JSON object
    /// holds nothing; a sealed one is refused.
    pub fn from_scoped(cred: &ScopedCredential, decoded: Result<CloudCredential, String>) -> (r:
        Result<CloudCredential, DataSourceError>)
        ensures
            sealed(trim_seq(cred.token@)) ==> r is Err && r->Err_0@
                == DataSourceErrorView::SealingKeyUnavailable,
            !sealed(trim_seq(cred.token@)) && !starts_with_seq(trim_seq(cred.token@), "{"@) ==> r
                is Ok && r->Ok_0.is_blank(),
            !sealed(trim_seq(cred.token@)) && starts_with_seq(trim_seq(cred.token@), "{"@) ==> (
            match decoded {
                Ok(c) => r is Ok && r->Ok_0 == c,
                Err(e) => r is Err && r->Err_0@ == DataSourceErrorView::MalformedToken(e@),
            }),
    {
        let t = trim(cred.token.as_str());
        if CloudCredential::is_sealed_token(t.as_str()) {
            return Err(DataSourceError::SealingKeyUnavailable);
        }
        if !starts_with(t.as_str(), "{") {
            return Ok(CloudCredential::blank());
        }
        match decoded {
            Ok(c) => Ok(c),
            Err(e) => Err(DataSourceError::MalformedToken(e)),
        }
    }

    /// Whether a token is sealed.
    pub fn is_sealed_token(token: &str) -> (r: bool)
        ensures
            r == sealed(token@),
    {
        starts_with(trim_start(token).as_str(), SEALED_TOKEN_PREFIX)
    }

    /// The token that carries a sealed payload.
    pub fn seal_token(payload: &str) -> (r: String)
        ensures
            r@ == SEALED_TOKEN_PREFIX@ + payload@,
            sealed(r@),
    {
        let r = join(SEALED_TOKEN_PREFIX, payload);
        proof {
            sealed_tokens_are_sealed(payload@);
        }
        r
    }

    /// The payload of a sealed token, in hexadecimal.
    pub fn sealed_payload(token: &str) -> (r: Result<String, DataSourceError>)
        ensures
            r is Ok <==> sealed(token@),
            r is Ok ==> r->Ok_0@ == strip_prefix_seq(trim_start_seq(token@), SEALED_TOKEN_PREFIX@),
            r is Err ==> r->Err_0@ == DataSourceErrorView::MalformedToken("not a sealed token"@),
    {
        let t = trim_start(token);
        if !starts_with(t.as_str(), SEALED_TOKEN_PREFIX) {
            return Err(DataSourceError::MalformedToken("not a sealed token".to_owned()));
        }
        Ok(strip_prefix(t.as_str(), SEALED_TOKEN_PREFIX))
    }

    /// The credential of a sealed token, given what opening its payload gave.
    pub fn unseal(token: &str, opened: Opened) -> (r: Result<CloudCredential, DataSourceError>)
        ensures
            !sealed(token@) ==> r is Err && r->Err_0@ == DataSourceErrorView::MalformedToken(
                "not a sealed token"@,
            ),
            sealed(token@) ==> (match opened {
                Opened::Failed => r is Err && r->Err_0@ == DataSourceErrorView::SealOpenFailed,
                Opened::Malformed(e) => r is Err && r->Err_0@
                    == DataSourceErrorView::MalformedToken(e@),
                Opened::Credential(c) => r is Ok && r->Ok_0 == c,
            }),
    {
        if !CloudCredential::is_sealed_token(token) {
            return Err(DataSourceError::MalformedToken("not a sealed token".to_owned()));
        }
        match opened {
            Opened::Failed => Err(DataSourceError::SealOpenFailed),
            Opened::Malformed(e) => Err(DataSourceError::MalformedToken(e)),
            Opened::Credential(c) => Ok(c),
        }
    }
}

/// White space before a token does not tell whether it is sealed.
pub proof fn leading_space_is_ignored(space: Seq<char>, token: Seq<char>)
    requires
        forall|i: int| 0 <= i < space.len() ==> is_white(#[trigger] space[i]),
    ensures
        trim_start_seq(space + token) == trim_start_seq(token),
        sealed(space + token) == sealed(token),
    decreases space.len(),
{
    if space.len() == 0 {
        assert(space + token =~= token);
    } else {
        let rest = space.skip(1);
        let all = space + token;
        assert(all[0] == space[0]);
        assert(all.subrange(1, all.len() as int) =~= rest + token);
        leading_space_is_ignored(rest, token);
    }
}

/// The plain form of a credential, an object in braces, is never taken for a sealed one.
pub proof fn plain_tokens_are_not_sealed(token: Seq<char>)
    requires
        starts_with_seq(trim_start_seq(token), "{"@),
    ensures
        !sealed(token),
{
    reveal_strlit("{");
    reveal_strlit("sealed:v1:");
    let t = trim_start_seq(token);
    assert(t.subrange(0, 1)[0] == '{');
    if sealed(token) {
        assert(t.subrange(0, SEALED_TOKEN_PREFIX@.len() as int)[0] == 's');
    }
}

/// A token made from a sealed payload is sealed, and carries that payload.
pub proof fn sealed_tokens_are_sealed(payload: Seq<char>)
    ensures
        sealed(SEALED_TOKEN_PREFIX@ + payload),
        strip_prefix_seq(trim_start_seq(SEALED_TOKEN_PREFIX@ + payload), SEALED_TOKEN_PREFIX@)
            == payload,
{
    reveal_strlit("sealed:v1:");
    let t = SEALED_TOKEN_PREFIX@ + payload;
    assert(t[0] == 's');
    assert(trim_start_seq(t) == t);
    let n = SEALED_TOKEN_PREFIX@.len() as int;
    assert(t.subrange(0, n) =~= SEALED_TOKEN_PREFIX@);
    assert(t.subrange(0, 0 + n) =~= SEALED_TOKEN_PREFIX@);
    assert(t.subrange(n, t.len() as int) =~= payload);
}

/// Formats go by their names, in any case and with space around them; any other name is
/// kept.
pub proof fn formats_go_by_their_names(s: Seq<char>)
    ensures
        ({
            let name = ascii_lower_seq(trim_seq(s));
            let f = format_named(s);
            &&& f == FormatView::Csv <==> name == "csv"@
            &&& f == FormatView::Json <==> name == "json"@ || name == "ndjson"@
            &&& f == FormatView::Parquet <==> name == "parquet"@
            &&& f == FormatView::Delta <==> name == "delta"@ || name == "deltalake"@ || name
                == "delta_lake"@
            &&& f == FormatView::Iceberg <==> name == "iceberg"@
            &&& f is Other ==> f == FormatView::Other(name)
        }),
{
    reveal_strlit("csv");
    reveal_strlit("json");
    reveal_strlit("ndjson");
    reveal_strlit("parquet");
    reveal_strlit("delta");
    reveal_strlit("deltalake");
    reveal_strlit("delta_lake");
    reveal_strlit("iceberg");
    assert("csv"@[0] == 'c');
    assert("json"@[0] == 'j');
    assert("ndjson"@[0] == 'n');
    assert("parquet"@[0] == 'p');
    assert("delta"@[0] == 'd');
    assert("deltalake"@[0] == 'd');
    assert("delta_lake"@[0] == 'd');
    assert("iceberg"@[0] == 'i');
}

/// A sealed token begins with its mark, whatever space stands before it.
pub proof fn the_mark_seals_a_token(space: Seq<char>, token: Seq<char>)
    requires
        forall|i: int| 0 <= i < space.len() ==> is_white(#[trigger] space[i]),
        token.len() > 0 ==> !is_white(token[0]),
    ensures
        sealed(space + token) <==> token.len() >= 10 && token.take(10) == "sealed:v1:"@,
{
    reveal_strlit("sealed:v1:");
    leading_space_is_ignored(space, token);
    assert(trim_start_seq(token) == token);
    if token.len() >= 10 {
        assert(token.take(10) =~= token.subrange(0, 10));
    }
}

/// An error names what it is about.
pub proof fn faults_name_their_subject(s: Seq<char>, p: Seq<char>)
    ensures
        DataSourceErrorView::UnknownProvider(s).text() == "unknown storage provider: "@ + s,
        DataSourceErrorView::MalformedToken(s).text() == "malformed credential token: "@ + s,
        DataSourceErrorView::UnsupportedFormat(s).text() == "unsupported data format: "@ + s,
        DataSourceErrorView::InvalidSecretKey(s).text() =~= "invalid secret option key `"@ + (s
            + "` (must match [A-Z_][A-Z0-9_]*)"@),
        DataSourceErrorView::MissingField(s, p).text()
            =~= "credential is missing required field `"@ + (s + ("` for provider `"@ + (p + "`"@))),
{
}

} // verus!
