//! Decision logic of the companion control tool.
//!
//! The tool talks to devices over their RPC endpoints; every request and
//! response is handled by the surrounding program.  What is decided from
//! the exchanged values — which script an upload replaces, whether a
//! running script must be stopped first, how a key-value pair is split
//! into component, key path and value, what a download is saved as — is
//! the logic here.

use vstd::prelude::*;

use crate::json::{get_field, spec_doc_get, JsonDoc};
use crate::text::{
    ascii_lowercase, parse_i64, push_char, spec_ascii_lower, spec_parse_i64, spec_split_once,
    split_once_char,
};

verus! {

/// Whether `c` is an ASCII letter or digit.
pub open spec fn spec_is_alnum(c: char) -> bool {
    (48 <= c as u32 && c as u32 <= 57) || (65 <= c as u32 && c as u32 <= 90) || (97 <= c as u32
        && c as u32 <= 122)
}

/// `c` where it is an ASCII letter or digit, and `_` elsewhere.
pub open spec fn spec_safe_char(c: char) -> char {
    if spec_is_alnum(c) {
        c
    } else {
        '_'
    }
}

/// A script's download filename: the script name with every character
/// that is not an ASCII letter or digit replaced by `_`, then `.js`.
pub open spec fn spec_safe_filename(name: Seq<char>) -> Seq<char> {
    name.map_values(|c: char| spec_safe_char(c)) + ".js"@
}

/// Derives a filename safe to save a script under from the script's name.
pub fn generate_safe_filename(name: &str) -> (r: String)
    ensures
        r@ == spec_safe_filename(name@),
{
    let n = name.unicode_len();
    let mut r = String::new();
    let mut i: usize = 0;
    proof {
        assert(r@ =~= name@.take(0).map_values(|c: char| spec_safe_char(c)));
    }
    while i < n
        invariant
            i <= n,
            n == name@.len(),
            r@ == name@.take(i as int).map_values(|c: char| spec_safe_char(c)),
        decreases n - i,
    {
        let c = name.get_char(i);
        let u = c as u32;
        let safe = if (48 <= u && u <= 57) || (65 <= u && u <= 90) || (97 <= u && u <= 122) {
            c
        } else {
            '_'
        };
        push_char(&mut r, safe);
        proof {
            assert(name@.take(i + 1).drop_last() =~= name@.take(i as int));
            assert(r@ =~= name@.take(i + 1).map_values(|c: char| spec_safe_char(c)));
        }
        i = i + 1;
    }
    proof {
        assert(name@.take(n as int) =~= name@);
    }
    r.append(".js");
    r
}

/// The filename a downloaded script is saved under: the one the caller
/// chose, or else one derived from the script's name.
pub fn output_filename(chosen: Option<String>, name: &str) -> (r: String)
    ensures
        match chosen {
            Option::Some(f) => r == f,
            Option::None => r@ == spec_safe_filename(name@),
        },
{
    match chosen {
        Option::Some(f) => f,
        Option::None => generate_safe_filename(name),
    }
}

/// The URL of one RPC method on one device.
pub open spec fn spec_rpc_url(device: Seq<char>, method: Seq<char>) -> Seq<char> {
    "http://"@ + device + "/rpc/"@ + method
}

/// Composes the URL of an RPC method on a device's HTTP endpoint.
pub fn rpc_url(device: &String, method: &str) -> (r: String)
    ensures
        r@ == spec_rpc_url(device@, method@),
{
    let mut r = String::from_str("http://");
    r.append(device.as_str());
    r.append("/rpc/");
    r.append(method);
    proof {
        assert(r@ =~= spec_rpc_url(device@, method@));
    }
    r
}

/// The identifier a device reports for itself: its `id` member when that
/// is a string, and `-` otherwise.
pub open spec fn spec_id_string(info: JsonDoc) -> Seq<char> {
    match spec_doc_get(info, "id"@) {
        Option::Some(JsonDoc::Text(s)) => s@,
        _ => "-"@,
    }
}

/// The model part of a reported identifier: the characters between the
/// leading `shelly` and the first `-` that follows it, or `unknown` when
/// the identifier has no such shape.
pub open spec fn spec_device_type(id: Seq<char>) -> Seq<char> {
    if id.len() >= 6 && id.take(6) == "shelly"@ {
        match spec_split_once(id.skip(6), '-') {
            Option::Some(parts) => parts.0,
            Option::None => "unknown"@,
        }
    } else {
        "unknown"@
    }
}

/// Parses the device model out of a reported identifier such as
/// `shellypro3em-08f9e0e4d444`.
pub fn parse_device_type(id: &str) -> (r: String)
    ensures
        r@ == spec_device_type(id@),
{
    let n = id.unicode_len();
    if n < 6 {
        return String::from_str("unknown");
    }
    let prefix = id.substring_char(0, 6);
    proof {
        assert(id@.subrange(0, 6) =~= id@.take(6));
    }
    if String::from_str(prefix) == String::from_str("shelly") {
        let rest = id.substring_char(6, n);
        proof {
            assert(id@.subrange(6, n as int) =~= id@.skip(6));
        }
        match split_once_char(rest, '-') {
            Option::Some(parts) => parts.0,
            Option::None => String::from_str("unknown"),
        }
    } else {
        String::from_str("unknown")
    }
}

/// Whether `doc` names `name` as its `name` member.
pub open spec fn spec_is_named(doc: JsonDoc, name: Seq<char>) -> bool {
    match spec_doc_get(doc, "name"@) {
        Option::Some(JsonDoc::Text(s)) => s@ == name,
        _ => false,
    }
}

/// The first document of `docs` named `name`, if any.
pub open spec fn spec_find_named(docs: Seq<JsonDoc>, name: Seq<char>) -> Option<JsonDoc>
    decreases docs.len(),
{
    if docs.len() == 0 {
        Option::None
    } else if spec_is_named(docs[0], name) {
        Option::Some(docs[0])
    } else {
        spec_find_named(docs.drop_first(), name)
    }
}

/// Finds the first script entry whose `name` member is the given name, as
/// the device's script list reports them.
pub fn find_named<'a>(docs: &'a Vec<JsonDoc>, name: &String) -> (r: Option<&'a JsonDoc>)
    ensures
        match r {
            Option::Some(d) => spec_find_named(docs@, name@) == Option::Some(*d),
            Option::None => spec_find_named(docs@, name@) is None,
        },
{
    let key = String::from_str("name");
    let n = docs.len();
    let mut i: usize = 0;
    proof {
        assert(docs@.skip(0) =~= docs@);
    }
    while i < n
        invariant
            i <= n,
            n == docs@.len(),
            key@ == "name"@,
            spec_find_named(docs@.skip(i as int), name@) == spec_find_named(docs@, name@),
        decreases n - i,
    {
        proof {
            assert(docs@.skip(i as int)[0] == docs@[i as int]);
            assert(docs@.skip(i as int).drop_first() =~= docs@.skip(i + 1));
        }
        let named = match get_field(&docs[i], &key) {
            Option::Some(JsonDoc::Text(s)) => *s == *name,
            _ => false,
        };
        if named {
            return Option::Some(&docs[i]);
        }
        i = i + 1;
    }
    proof {
        assert(docs@.skip(n as int) =~= Seq::<JsonDoc>::empty());
    }
    Option::None
}

/// What an upload does once the device's script list has been consulted.
#[derive(PartialEq, Eq, Structural, Clone, Copy, Debug)]
pub enum UploadAction {
    /// No script of that name exists: create one, then put the code.
    CreateThenPut,
    /// The script exists and is not running: put the code.
    Put,
    /// The script exists and runs, and overwriting was forced: stop it,
    /// then put the code.
    StopThenPut,
    /// The script exists and runs, and overwriting was not forced: leave
    /// it untouched.
    RefuseRunning,
}

/// The action an upload takes for a script that `existing` describes:
/// nothing when absent, else whether it is running.
pub open spec fn spec_plan_upload(existing: Option<bool>, force: bool) -> UploadAction {
    match existing {
        Option::None => UploadAction::CreateThenPut,
        Option::Some(running) => if running && force {
            UploadAction::StopThenPut
        } else if running {
            UploadAction::RefuseRunning
        } else {
            UploadAction::Put
        },
    }
}

/// Decides how to upload a script, from whether a script of that name
/// exists, whether it is running, and whether overwriting was forced.
pub fn plan_upload(existing: Option<bool>, force: bool) -> (a: UploadAction)
    ensures
        a == spec_plan_upload(existing, force),
{
    match existing {
        Option::None => UploadAction::CreateThenPut,
        Option::Some(running) => {
            if running && force {
                UploadAction::StopThenPut
            } else if running {
                UploadAction::RefuseRunning
            } else {
                UploadAction::Put
            }
        },
    }
}

/// Whether a script must be enabled after an upload: only when enabling
/// was asked for and the script is not already running.
pub fn should_enable(enable: bool, running: bool) -> (r: bool)
    ensures
        r == (enable && !running),
{
    enable && !running
}

/// What a raw configuration value reads as, before any floating-point
/// attempt: a boolean in any ASCII case, a signed 64-bit integer, or
/// something later stages must interpret.
#[derive(PartialEq, Eq, Structural, Clone, Copy, Debug)]
pub enum ScalarKind {
    True,
    False,
    Int(i64),
    Other,
}

/// The reading of a raw value: `true` and `false` in any ASCII case come
/// first, then a signed 64-bit integer; everything else is left to later
/// stages.
pub open spec fn spec_scalar_kind(s: Seq<char>) -> ScalarKind {
    if spec_ascii_lower(s) == "true"@ {
        ScalarKind::True
    } else if spec_ascii_lower(s) == "false"@ {
        ScalarKind::False
    } else {
        match spec_parse_i64(s) {
            Option::Some(n) => ScalarKind::Int(n),
            Option::None => ScalarKind::Other,
        }
    }
}

/// Classifies a raw configuration value: a boolean ignoring ASCII case, a
/// signed 64-bit integer, or something for later stages (a floating-point
/// number or a plain string) to interpret.
pub fn classify_scalar(val: &str) -> (r: ScalarKind)
    ensures
        r == spec_scalar_kind(val@),
{
    let lowered = ascii_lowercase(val);
    if lowered == String::from_str("true") {
        ScalarKind::True
    } else if lowered == String::from_str("false") {
        ScalarKind::False
    } else {
        match parse_i64(val) {
            Option::Some(n) => ScalarKind::Int(n),
            Option::None => ScalarKind::Other,
        }
    }
}

/// The lowercase form of a string, by the full case-folding rules of the
/// standard library.
pub uninterp spec fn lower_of(s: Seq<char>) -> Seq<char>;

/// Relies on `str::to_lowercase` of std: the lowercase form of the
/// string, depending on its characters alone.
#[verifier::external_body]
fn lowercase(s: &str) -> (r: String)
    ensures
        r@ == lower_of(s@),
{
    s.to_lowercase()
}

/// The first method of `methods` whose lowercase form is `target`.
pub open spec fn spec_find_method(methods: Seq<Seq<char>>, target: Seq<char>) -> Option<Seq<char>>
    decreases methods.len(),
{
    if methods.len() == 0 {
        Option::None
    } else if lower_of(methods[0]) == target {
        Option::Some(methods[0])
    } else {
        spec_find_method(methods.drop_first(), target)
    }
}

/// Finds the method a device offers under a case-insensitive name: the
/// first of `methods` whose lowercase form is `rpc` followed by `suffix`,
/// as the device spelled it.
pub fn find_method(methods: &Vec<String>, rpc: &String, suffix: &str) -> (r: Option<String>)
    ensures
        match r {
            Option::Some(m) => spec_find_method(
                methods@.map_values(|m: String| m@),
                rpc@ + suffix@,
            ) == Option::Some(m@),
            Option::None => spec_find_method(
                methods@.map_values(|m: String| m@),
                rpc@ + suffix@,
            ) is None,
        },
{
    let ghost views = methods@.map_values(|m: String| m@);
    let mut target = rpc.clone();
    target.append(suffix);
    let n = methods.len();
    let mut i: usize = 0;
    proof {
        assert(views.skip(0) =~= views);
    }
    while i < n
        invariant
            i <= n,
            n == methods@.len(),
            views == methods@.map_values(|m: String| m@),
            target@ == rpc@ + suffix@,
            spec_find_method(views.skip(i as int), target@) == spec_find_method(views, target@),
        decreases n - i,
    {
        proof {
            assert(views.skip(i as int)[0] == views[i as int]);
            assert(views.skip(i as int).drop_first() =~= views.skip(i + 1));
        }
        let lowered = lowercase(methods[i].as_str());
        if lowered == target {
            return Option::Some(methods[i].clone());
        }
        i = i + 1;
    }
    proof {
        assert(views.skip(n as int) =~= Seq::<Seq<char>>::empty());
    }
    Option::None
}

/// Why a key-value pair of the configuration set subcommand is invalid.
#[derive(PartialEq, Eq, Structural, Clone, Copy, Debug)]
pub enum PairError {
    /// The pair has no `=` between key and value.
    MissingEquals,
    /// The key has no `.` between component and key path.
    MissingDot,
}

/// Splits one `Component.path.to.key=value` argument into the component
/// (lowered as ASCII), the key path and the raw value.  Fails exactly
/// when the `=` or the `.` is missing.
pub fn parse_pair(pair: &str) -> (r: Result<(String, String, String), PairError>)
    ensures
        match r {
            Result::Ok(p) => spec_split_once(pair@, '=') matches Option::Some(kv)
                && spec_split_once(kv.0, '.') matches Option::Some(ck) && p.0@ == spec_ascii_lower(
                ck.0,
            ) && p.1@ == ck.1 && p.2@ == kv.1,
            Result::Err(PairError::MissingEquals) => spec_split_once(pair@, '=') is None,
            Result::Err(PairError::MissingDot) => spec_split_once(pair@, '=')
                matches Option::Some(kv) && spec_split_once(kv.0, '.') is None,
        },
{
    match split_once_char(pair, '=') {
        Option::None => Result::Err(PairError::MissingEquals),
        Option::Some(kv) => {
            match split_once_char(kv.0.as_str(), '.') {
                Option::None => Result::Err(PairError::MissingDot),
                Option::Some(ck) => {
                    let component = ascii_lowercase(ck.0.as_str());
                    Result::Ok((component, ck.1, kv.1))
                },
            }
        },
    }
}

} // verus!
