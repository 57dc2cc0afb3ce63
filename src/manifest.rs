use vstd::prelude::*;

use crate::error::{CompileError, ErrInfo, ErrorCode, info};
use crate::parser::MetaV;
use crate::schema::{Resources, keys_distinct, pairs_view};
use crate::text::{chars_of, trim, trim_chars};

verus! {

/// A JSON document read as a manifest: `Err` with the parser's message when it
/// is not JSON, `Ok(None)` when it is JSON but not an object, otherwise the
/// object's entries with the string value of each (`None` for other values).
pub type ManifestJson = Result<Option<Seq<(Seq<char>, Option<Seq<char>>)>>, Seq<char>>;

/// What serde_json makes of the bytes of a manifest.
pub uninterp spec fn manifest_json(b: Seq<u8>) -> Result<Option<Seq<(Seq<char>, Option<Seq<char>>)>>, Seq<char>>;

pub open spec fn entries_view(v: Seq<(String, Option<String>)>) -> Seq<(Seq<char>, Option<Seq<char>>)> {
    v.map_values(|p: (String, Option<String>)| (p.0@, crate::tail::opt_str_view(p.1)))
}

pub open spec fn json_view(r: Result<Option<Vec<(String, Option<String>)>>, String>) -> ManifestJson {
    match r {
        Ok(Some(v)) => Ok(Some(entries_view(v@))),
        Ok(None) => Ok(None),
        Err(m) => Err(m@),
    }
}

pub open spec fn entry_keys_distinct(s: Seq<(Seq<char>, Option<Seq<char>>)>) -> bool {
    forall|i: int, j: int| 0 <= i < j < s.len() ==> #[trigger] s[i].0 != #[trigger] s[j].0
}

/// Relies on `serde_json::from_slice` into a `serde_json::Value`, and on
/// `Value::as_str`: the result depends on the bytes alone, and an object's
/// entries come from a `serde_json::Map`, whose keys are distinct.
#[verifier::external_body]
fn parse_json_object(bytes: &[u8]) -> (r: Result<Option<Vec<(String, Option<String>)>>, String>)
    ensures
        json_view(r) == manifest_json(bytes@),
        r matches Ok(Some(v)) ==> entry_keys_distinct(entries_view(v@)),
{
    match serde_json::from_slice::<serde_json::Value>(bytes) {
        Ok(serde_json::Value::Object(map)) => Ok(
            Some(map.into_iter().map(|(k, v)| (k, v.as_str().map(|s| s.to_string()))).collect()),
        ),
        Ok(_) => Ok(None),
        Err(e) => Err(e.to_string()),
    }
}

/// Whether an entry has a string value and neither key nor value is blank.
pub open spec fn entry_ok(e: (Seq<char>, Option<Seq<char>>)) -> bool {
    e.1 is Some && trim(e.0).len() > 0 && trim(e.1.unwrap()).len() > 0
}

/// The first entry at or after `i` that is not valid, or `es.len()`.
pub open spec fn first_bad_entry(es: Seq<(Seq<char>, Option<Seq<char>>)>, i: int) -> int
    decreases es.len() - i,
{
    if 0 <= i < es.len() && entry_ok(es[i]) {
        first_bad_entry(es, i + 1)
    } else {
        i
    }
}

/// The resource table a parsed manifest gives, or the failure at `line`.
pub open spec fn resources_from_json(j: ManifestJson, line: nat) -> Result<Seq<(Seq<char>, Seq<char>)>, ErrInfo> {
    match j {
        Err(m) => Err(info(ErrorCode::E2002, line, "invalid manifest json: "@ + m)),
        Ok(None) => Err(info(ErrorCode::E2003, line, "manifest must be a JSON object"@)),
        Ok(Some(es)) => {
            let k = first_bad_entry(es, 0);
            if k >= es.len() {
                Ok(es.map_values(|p: (Seq<char>, Option<Seq<char>>)| (p.0, p.1.unwrap())))
            } else if es[k].1 is None {
                Err(info(ErrorCode::E2003, line, "manifest values must be strings"@))
            } else {
                Err(info(ErrorCode::E2003, line, "manifest keys/values must be non-empty"@))
            }
        },
    }
}

/// Checks the entries of a parsed manifest and builds the resource table.
#[verifier::loop_isolation(false)]
pub fn resources_from_entries(json: Result<Option<Vec<(String, Option<String>)>>, String>, line: usize) -> (r: Result<Resources, CompileError>)
    requires
        json matches Ok(Some(v)) ==> entry_keys_distinct(entries_view(v@)),
    ensures
        match (r, resources_from_json(json_view(json), line as nat)) {
            (Ok(res), Ok(s)) => res@ == s && res.wf(),
            (Err(e), Err(i)) => e.is(i),
            _ => false,
        },
{
    match json {
        Err(msg) => {
            let mut m = String::new();
            m.append("invalid manifest json: ");
            m.append(msg.as_str());
            Err(CompileError::new(ErrorCode::E2002, m, line))
        },
        Ok(None) => {
            let mut m = String::new();
            m.append("manifest must be a JSON object");
            Err(CompileError::new(ErrorCode::E2003, m, line))
        },
        Ok(Some(entries)) => {
            let ghost es = entries_view(entries@);
            let mut out: Vec<(String, String)> = Vec::new();
            let mut i: usize = 0;
            while i < entries.len()
                invariant
                    i <= entries.len(),
                    es == entries_view(entries@),
                    entry_keys_distinct(es),
                    out@.len() == i,
                    forall|k: int| 0 <= k < i ==> entry_ok(#[trigger] es[k]),
                    first_bad_entry(es, i as int) == first_bad_entry(es, 0),
                    pairs_view(out@) == es.subrange(0, i as int).map_values(|p: (Seq<char>, Option<Seq<char>>)| (p.0, p.1.unwrap())),
                decreases entries.len() - i,
            {
                let k = &entries[i].0;
                assert(es[i as int].0 == k@);
                match &entries[i].1 {
                    Some(v) => {
                        assert(es[i as int].1 == Some(v@));
                        let kt = trim_chars(&chars_of(k.as_str()));
                        let vt = trim_chars(&chars_of(v.as_str()));
                        if kt.len() == 0 || vt.len() == 0 {
                            assert(!entry_ok(es[i as int]));
                            assert(first_bad_entry(es, i as int) == i);
                            let mut m = String::new();
                            m.append("manifest keys/values must be non-empty");
                            return Err(CompileError::new(ErrorCode::E2003, m, line));
                        }
                        let ghost before = pairs_view(out@);
                        let kc = k.clone();
                        let vc = v.clone();
                        out.push((kc, vc));
                        assert(pairs_view(out@) =~= before.push((k@, v@)));
                        assert(es.subrange(0, i + 1).map_values(|p: (Seq<char>, Option<Seq<char>>)| (p.0, p.1.unwrap())) =~= es.subrange(0, i as int).map_values(|p: (Seq<char>, Option<Seq<char>>)| (p.0, p.1.unwrap())).push((k@, v@)));
                        assert(pairs_view(out@) =~= es.subrange(0, i + 1).map_values(|p: (Seq<char>, Option<Seq<char>>)| (p.0, p.1.unwrap())));
                    },
                    None => {
                        assert(es[i as int].1 is None);
                        assert(!entry_ok(es[i as int]));
                        assert(first_bad_entry(es, i as int) == i);
                        let mut m = String::new();
                        m.append("manifest values must be strings");
                        return Err(CompileError::new(ErrorCode::E2003, m, line));
                    },
                }
                i = i + 1;
            }
            assert(es.subrange(0, entries.len() as int) =~= es);
            assert(first_bad_entry(es, i as int) == i);
            let res = Resources { entries: out };
            assert(keys_distinct(res@)) by {
                assert forall|a: int, b: int| 0 <= a < b < res@.len() implies #[trigger] res@[a].0 != #[trigger] res@[b].0 by {
                    assert(res@[a].0 == es[a].0);
                    assert(res@[b].0 == es[b].0);
                }
            }
            Ok(res)
        },
    }
}

/// What the caller could read of the manifest that a source names.
pub enum ManifestFile {
    /// No base directory was given, so the manifest path cannot be resolved.
    NoBaseDir,
    /// Reading the file failed.
    Unreadable { path: String, reason: String },
    /// The file's bytes.
    Bytes(Vec<u8>),
}

pub enum ManifestV {
    NoBaseDir,
    Unreadable { path: Seq<char>, reason: Seq<char> },
    Bytes(Seq<u8>),
}

impl View for ManifestFile {
    type V = ManifestV;

    open spec fn view(&self) -> ManifestV {
        match self {
            ManifestFile::NoBaseDir => ManifestV::NoBaseDir,
            ManifestFile::Unreadable { path, reason } => ManifestV::Unreadable { path: path@, reason: reason@ },
            ManifestFile::Bytes(b) => ManifestV::Bytes(b@),
        }
    }
}

/// The resource table of a source: empty without `@sound_manifest`, else read
/// from the manifest; failures are located at the directive's line.
pub open spec fn resources_spec(meta: MetaV, meta_line: usize, mf: ManifestV) -> Result<Seq<(Seq<char>, Seq<char>)>, ErrInfo> {
    match meta.sound_manifest {
        None => Ok(Seq::empty()),
        Some(_) => {
            let line = match meta.sound_manifest_line {
                Some(l) => l,
                None => meta_line,
            } as nat;
            match mf {
                ManifestV::NoBaseDir => Err(info(ErrorCode::E2001, line, "@sound_manifest requires a base directory"@)),
                ManifestV::Unreadable { path, reason } => Err(
                    info(ErrorCode::E2001, line, "failed to read manifest "@ + path + ": "@ + reason).in_file(path),
                ),
                ManifestV::Bytes(b) => resources_from_json(manifest_json(b), line),
            }
        },
    }
}

pub fn load_resources(meta: &crate::parser::ParsedMeta, meta_line: usize, manifest: &ManifestFile) -> (r: Result<Resources, CompileError>)
    ensures
        match (r, resources_spec(meta@, meta_line, manifest@)) {
            (Ok(res), Ok(s)) => res@ == s && res.wf(),
            (Err(e), Err(i)) => e.is(i),
            _ => false,
        },
{
    if meta.sound_manifest.is_none() {
        let res = Resources::new();
        return Ok(res);
    }
    let line = match meta.sound_manifest_line {
        Some(l) => l,
        None => meta_line,
    };
    match manifest {
        ManifestFile::NoBaseDir => {
            let mut m = String::new();
            m.append("@sound_manifest requires a base directory");
            Err(CompileError::new(ErrorCode::E2001, m, line))
        },
        ManifestFile::Unreadable { path, reason } => {
            let mut m = String::new();
            m.append("failed to read manifest ");
            m.append(path.as_str());
            m.append(": ");
            m.append(reason.as_str());
            Err(CompileError::new(ErrorCode::E2001, m, line).with_file(path.clone()))
        },
        ManifestFile::Bytes(b) => {
            let json = parse_json_object(b.as_slice());
            resources_from_entries(json, line)
        },
    }
}

} // verus!
