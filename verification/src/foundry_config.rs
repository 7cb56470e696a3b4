//! The project configuration in `foundry.toml`: the directories of the
//! default profile, with Foundry's defaults, and the checks that the
//! artifacts carry what inspection needs (`ast = true`, `storageLayout`).
use vstd::prelude::*;
use crate::listing::ProjectDirectories;
use crate::strings::{chars_eq, chars_of, push_str};

verus! {

#[verifier::external_type_specification]
#[verifier::external_body]
pub struct ExTomlValue(toml::Value);

/// A TOML value as the configuration logic reads it; floats and datetimes
/// are kept only as what they are, since nothing here reads them.
#[derive(Debug)]
pub enum TomlValue {
    String(String),
    Integer(i64),
    Float,
    Boolean(bool),
    Datetime,
    Array(Vec<TomlValue>),
    Table(Vec<(String, TomlValue)>),
}

/// What `toml` makes of `text`: the document as a table value, or, when
/// `text` is no TOML document, the text of the parse error.
pub uninterp spec fn toml_document(text: Seq<char>) -> Result<TomlValue, Seq<char>>;

/// A TOML value as the library's type, variant by variant.
#[verifier::external_body]
fn toml_value_of(v: toml::Value) -> TomlValue {
    match v {
        toml::Value::String(s) => TomlValue::String(s),
        toml::Value::Integer(i) => TomlValue::Integer(i),
        toml::Value::Float(_) => TomlValue::Float,
        toml::Value::Boolean(b) => TomlValue::Boolean(b),
        toml::Value::Datetime(_) => TomlValue::Datetime,
        toml::Value::Array(a) => TomlValue::Array(a.into_iter().map(toml_value_of).collect()),
        toml::Value::Table(t) => TomlValue::Table(t.into_iter().map(|(k, x)| (k, toml_value_of(x))).collect()),
    }
}

/// Parse a TOML document.
///
/// Wraps `toml::from_str` into a `toml::Table`, with the error turned into
/// its message (`Display` of `toml::de::Error`). The contract claims that
/// the result, turned into the library's value type, or the message, is a
/// function of the text alone (named [`toml_document`]). What the parser
/// accepts (TOML's grammar) and how it words an error are left to the crate.
#[verifier::external_body]
fn parse_toml(text: &str) -> (r: Result<TomlValue, String>)
    ensures
        match r {
            Ok(v) => toml_document(text@) == Ok::<TomlValue, Seq<char>>(v),
            Err(e) => toml_document(text@) == Err::<TomlValue, Seq<char>>(e@),
        },
{
    match toml::from_str::<toml::Table>(text) {
        Ok(t) => Ok(TomlValue::Table(t.into_iter().map(|(k, x)| (k, toml_value_of(x))).collect())),
        Err(e) => Err(e.to_string()),
    }
}

// ---------------------------------------------------------------------------
// Reading values
// ---------------------------------------------------------------------------

/// The value under `key` in the entries of a table: the first entry with
/// that key.
pub open spec fn entries_get(es: Seq<(String, TomlValue)>, key: Seq<char>) -> Option<TomlValue>
    decreases es.len(),
{
    if es.len() == 0 {
        None
    } else if es[0].0@ == key {
        Some(es[0].1)
    } else {
        entries_get(es.drop_first(), key)
    }
}

/// `Value::get` with a key: the value under `key` of a table, `None` for
/// any other value.
pub open spec fn get_spec(v: Option<TomlValue>, key: Seq<char>) -> Option<TomlValue> {
    match v {
        Some(TomlValue::Table(es)) => entries_get(es@, key),
        _ => None,
    }
}

/// `Value::as_str`.
pub open spec fn as_str_spec(v: Option<TomlValue>) -> Option<Seq<char>> {
    match v {
        Some(TomlValue::String(s)) => Some(s@),
        _ => None,
    }
}

/// `Value::as_bool`.
pub open spec fn as_bool_spec(v: Option<TomlValue>) -> Option<bool> {
    match v {
        Some(TomlValue::Boolean(b)) => Some(b),
        _ => None,
    }
}

/// The `[profile.default]` table of a document.
pub open spec fn default_profile(doc: TomlValue) -> Option<TomlValue> {
    get_spec(get_spec(Some(doc), "profile"@), "default"@)
}

/// The strings among the values of an array, in order.
pub open spec fn strings_of(vs: Seq<TomlValue>) -> Seq<Seq<char>>
    decreases vs.len(),
{
    if vs.len() == 0 {
        Seq::empty()
    } else {
        let rest = strings_of(vs.drop_last());
        match vs.last() {
            TomlValue::String(s) => rest.push(s@),
            _ => rest,
        }
    }
}

/// The directories configured in a document's default profile: `src` and
/// `test` when they are strings, else `src` and `test`; the strings of the
/// `libs` array when it is an array, else `lib` and `node_modules`.
pub open spec fn directories_spec(doc: TomlValue) -> (Seq<char>, Seq<char>, Seq<Seq<char>>) {
    let p = default_profile(doc);
    let src = match as_str_spec(get_spec(p, "src"@)) {
        Some(s) => s,
        None => "src"@,
    };
    let test = match as_str_spec(get_spec(p, "test"@)) {
        Some(s) => s,
        None => "test"@,
    };
    let libs = match get_spec(p, "libs"@) {
        Some(TomlValue::Array(a)) => strings_of(a@),
        _ => seq!["lib"@, "node_modules"@],
    };
    (src, test, libs)
}

pub open spec fn directories_view(d: ProjectDirectories) -> (Seq<char>, Seq<char>, Seq<Seq<char>>) {
    (d.src@, d.test@, d.libs@.map_values(|s: String| s@))
}

/// Whether the default profile sets `ast = true`.
pub open spec fn ast_enabled(doc: TomlValue) -> bool {
    as_bool_spec(get_spec(default_profile(doc), "ast"@)) == Some(true)
}

/// The string `storageLayout`.
pub open spec fn is_storage_layout(v: TomlValue) -> bool {
    v matches TomlValue::String(s) && s@ == "storageLayout"@
}

/// Whether the default profile's `extra_output` is an array that holds the
/// string `storageLayout`.
pub open spec fn storage_layout_enabled(doc: TomlValue) -> bool {
    match get_spec(default_profile(doc), "extra_output"@) {
        Some(TomlValue::Array(a)) => exists|i: int| 0 <= i < a@.len() && #[trigger] is_storage_layout(a@[i]),
        _ => false,
    }
}

pub open spec fn ast_message(path: Seq<char>) -> Seq<char> {
    "`ast = true` must be set in the [profile.default] section of "@ + path
}

pub open spec fn storage_layout_message(path: Seq<char>) -> Seq<char> {
    "`storageLayout` must be set in the [profile.default].extra_output section of "@ + path
}

fn text_is(s: &String, t: &str) -> (b: bool)
    ensures
        b == (s@ == t@),
{
    chars_eq(&chars_of(s.as_str()), &chars_of(t))
}

pub open spec fn opt_deref(o: Option<&TomlValue>) -> Option<TomlValue> {
    match o {
        Some(x) => Some(*x),
        None => None,
    }
}

fn get_value<'a>(v: Option<&'a TomlValue>, key: &str) -> (r: Option<&'a TomlValue>)
    ensures
        opt_deref(r) == get_spec(opt_deref(v), key@),
{
    match v {
        Some(TomlValue::Table(es)) => {
            let mut i: usize = 0;
            assert(es@.subrange(0, es@.len() as int) =~= es@);
            assert(get_spec(opt_deref(v), key@) == entries_get(es@, key@));
            while i < es.len()
                invariant
                    i <= es@.len(),
                    get_spec(opt_deref(v), key@) == entries_get(es@, key@),
                    entries_get(es@, key@) == entries_get(es@.subrange(i as int, es@.len() as int), key@),
                decreases es@.len() - i,
            {
                let ghost rest = es@.subrange(i as int, es@.len() as int);
                assert(rest[0] == es@[i as int]);
                assert(rest.drop_first() =~= es@.subrange(i + 1, es@.len() as int));
                if text_is(&es[i].0, key) {
                    assert(entries_get(rest, key@) == Some(es@[i as int].1));
                    return Some(&es[i].1);
                }
                i = i + 1;
            }
            None
        },
        _ => None,
    }
}

fn as_str_value(v: Option<&TomlValue>) -> (r: Option<&String>)
    ensures
        match r {
            Some(x) => as_str_spec(opt_deref(v)) == Some(x@),
            None => as_str_spec(opt_deref(v)) is None,
        },
{
    match v {
        Some(TomlValue::String(s)) => Some(s),
        _ => None,
    }
}

fn strings_exec(vs: &Vec<TomlValue>) -> (r: Vec<String>)
    ensures
        r@.map_values(|s: String| s@) == strings_of(vs@),
{
    let mut out: Vec<String> = Vec::new();
    let mut i: usize = 0;
    assert(out@.map_values(|s: String| s@) =~= strings_of(vs@.take(0)));
    while i < vs.len()
        invariant
            i <= vs@.len(),
            out@.map_values(|s: String| s@) == strings_of(vs@.take(i as int)),
        decreases vs@.len() - i,
    {
        assert(vs@.take(i + 1).drop_last() =~= vs@.take(i as int));
        assert(vs@.take(i + 1).last() == vs@[i as int]);
        match &vs[i] {
            TomlValue::String(s) => {
                let ghost before = out@.map_values(|s: String| s@);
                out.push(s.clone());
                assert(out@.map_values(|s: String| s@) =~= before.push(s@));
            },
            _ => {},
        }
        i = i + 1;
    }
    assert(vs@.take(vs@.len() as int) =~= vs@);
    out
}

/// The directories configured in a parsed `foundry.toml`, with Foundry's
/// defaults for what the default profile leaves out.
pub fn directories_from_config(doc: &TomlValue) -> (r: ProjectDirectories)
    ensures
        directories_view(r) == directories_spec(*doc),
{
    let profile = get_value(get_value(Some(doc), "profile"), "default");
    let src = match as_str_value(get_value(profile, "src")) {
        Some(s) => s.clone(),
        None => String::from_str("src"),
    };
    let test = match as_str_value(get_value(profile, "test")) {
        Some(s) => s.clone(),
        None => String::from_str("test"),
    };
    let libs = match get_value(profile, "libs") {
        Some(TomlValue::Array(a)) => strings_exec(a),
        _ => {
            let mut v: Vec<String> = Vec::new();
            v.push(String::from_str("lib"));
            v.push(String::from_str("node_modules"));
            proof {
                reveal_strlit("lib");
                reveal_strlit("node_modules");
            }
            assert(v@.map_values(|s: String| s@) =~= seq!["lib"@, "node_modules"@]);
            v
        },
    };
    let r = ProjectDirectories { src, test, libs };
    assert(directories_view(r) == directories_spec(*doc));
    r
}

/// Read the directory configuration from the text of `foundry.toml`; the
/// error is the parser's message when the text is no TOML document.
pub fn project_directories(text: &str) -> (r: Result<ProjectDirectories, String>)
    ensures
        match toml_document(text@) {
            Ok(d) => r matches Ok(x) && directories_view(x) == directories_spec(d),
            Err(m) => r matches Err(e) && e@ == m,
        },
{
    match parse_toml(text) {
        Ok(doc) => Ok(directories_from_config(&doc)),
        Err(e) => Err(e),
    }
}

fn check_ast(doc: &TomlValue, path: &str) -> (r: Result<(), String>)
    ensures
        ast_enabled(*doc) ==> r is Ok,
        !ast_enabled(*doc) ==> (r matches Err(e) && e@ == ast_message(path@)),
{
    let profile = get_value(get_value(Some(doc), "profile"), "default");
    match get_value(profile, "ast") {
        Some(TomlValue::Boolean(true)) => Ok(()),
        _ => {
            let mut msg = String::from_str("`ast = true` must be set in the [profile.default] section of ");
            push_str(&mut msg, path);
            Err(msg)
        },
    }
}

fn check_storage_layout(doc: &TomlValue, path: &str) -> (r: Result<(), String>)
    ensures
        storage_layout_enabled(*doc) ==> r is Ok,
        !storage_layout_enabled(*doc) ==> (r matches Err(e) && e@ == storage_layout_message(path@)),
{
    let profile = get_value(get_value(Some(doc), "profile"), "default");
    match get_value(profile, "extra_output") {
        Some(TomlValue::Array(a)) => {
            let mut i: usize = 0;
            assert(get_spec(default_profile(*doc), "extra_output"@) == Some(TomlValue::Array(*a)));
            while i < a.len()
                invariant
                    get_spec(default_profile(*doc), "extra_output"@) == Some(TomlValue::Array(*a)),
                    i <= a@.len(),
                    forall|j: int| 0 <= j < i ==> !is_storage_layout(#[trigger] a@[j]),
                decreases a@.len() - i,
            {
                match &a[i] {
                    TomlValue::String(s) => {
                        if text_is(s, "storageLayout") {
                            assert(is_storage_layout(a@[i as int]));
                            let ghost ex = get_spec(default_profile(*doc), "extra_output"@);
                            assert(ex matches Some(TomlValue::Array(aa)) && aa@ == a@);
                            assert(storage_layout_enabled(*doc));
                            return Ok(());
                        }
                    },
                    _ => {},
                }
                i = i + 1;
            }
        },
        _ => {},
    }
    let mut msg = String::from_str("`storageLayout` must be set in the [profile.default].extra_output section of ");
    push_str(&mut msg, path);
    Err(msg)
}

/// Check the text of `foundry.toml` (found at `path`) for `ast = true` in
/// the default profile, which inspection needs.
pub fn validate_config(text: &str, path: &str) -> (r: Result<(), String>)
    ensures
        match toml_document(text@) {
            Ok(d) => (ast_enabled(d) ==> r is Ok) && (!ast_enabled(d) ==> (r matches Err(e) && e@ == ast_message(path@))),
            Err(m) => r matches Err(e) && e@ == m,
        },
{
    match parse_toml(text) {
        Ok(doc) => check_ast(&doc, path),
        Err(e) => Err(e),
    }
}

/// Check the text of `foundry.toml` (found at `path`) for `ast = true` and,
/// then, for `storageLayout` among the default profile's `extra_output`.
pub fn validate_storage_layout_config(text: &str, path: &str) -> (r: Result<(), String>)
    ensures
        match toml_document(text@) {
            Ok(d) => if !ast_enabled(d) {
                r matches Err(e) && e@ == ast_message(path@)
            } else if !storage_layout_enabled(d) {
                r matches Err(e) && e@ == storage_layout_message(path@)
            } else {
                r is Ok
            },
            Err(m) => r matches Err(e) && e@ == m,
        },
{
    match parse_toml(text) {
        Ok(doc) => {
            match check_ast(&doc, path) {
                Ok(()) => check_storage_layout(&doc, path),
                Err(e) => Err(e),
            }
        },
        Err(e) => Err(e),
    }
}

} // verus!
