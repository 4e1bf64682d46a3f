//! Object-storage notifications: which events start work, and where the
//! result of a log object is stored.
use vstd::prelude::*;
use vstd::string::*;
use crate::grammar::{chars_of, find_char, has_tag_at, lemma_find_char, scan_char, tag_at};
use crate::platform::{literal, piece, str_eq};

verus! {

/// The kind of a storage notification.
#[derive(Debug, PartialEq, Eq)]
pub enum S3EventType {
    ObjectCreatedPut,
    ObjectCreatedPost,
    ObjectCreatedCopy,
    ObjectCreatedCompleteMultipartUpload,
    ObjectRestoreCompleted,
    Other(String),
}

impl S3EventType {
    /// The four kinds of object creation.
    pub fn is_object_created(&self) -> (r: bool)
        ensures
            r == (self is ObjectCreatedPut || self is ObjectCreatedPost || self is ObjectCreatedCopy
                || self is ObjectCreatedCompleteMultipartUpload),
    {
        match self {
            S3EventType::ObjectCreatedPut => true,
            S3EventType::ObjectCreatedPost => true,
            S3EventType::ObjectCreatedCopy => true,
            S3EventType::ObjectCreatedCompleteMultipartUpload => true,
            _ => false,
        }
    }

    /// The kind that an event name names; an unknown name is `Other`.
    pub fn from_name(s: &str) -> (r: S3EventType)
        ensures
            match r {
                S3EventType::ObjectCreatedPut => s@ == "ObjectCreated:Put"@,
                S3EventType::ObjectCreatedPost => s@ == "ObjectCreated:Post"@,
                S3EventType::ObjectCreatedCopy => s@ == "ObjectCreated:Copy"@,
                S3EventType::ObjectCreatedCompleteMultipartUpload => s@
                    == "ObjectCreated:CompleteMultipartUpload"@,
                S3EventType::ObjectRestoreCompleted => s@ == "ObjectRestore:Completed"@,
                S3EventType::Other(x) => x@ == s@ && s@ != "ObjectCreated:Put"@ && s@
                    != "ObjectCreated:Post"@ && s@ != "ObjectCreated:Copy"@ && s@
                    != "ObjectCreated:CompleteMultipartUpload"@ && s@ != "ObjectRestore:Completed"@,
            },
    {
        if str_eq(s, "ObjectCreated:Put") {
            S3EventType::ObjectCreatedPut
        } else if str_eq(s, "ObjectCreated:Post") {
            S3EventType::ObjectCreatedPost
        } else if str_eq(s, "ObjectCreated:Copy") {
            S3EventType::ObjectCreatedCopy
        } else if str_eq(s, "ObjectCreated:CompleteMultipartUpload") {
            S3EventType::ObjectCreatedCompleteMultipartUpload
        } else if str_eq(s, "ObjectRestore:Completed") {
            S3EventType::ObjectRestoreCompleted
        } else {
            S3EventType::Other(literal(s))
        }
    }
}

impl std::str::FromStr for S3EventType {
    type Err = ();

    fn from_str(s: &str) -> Result<Self, Self::Err> {
        Ok(S3EventType::from_name(s))
    }
}

/// `s` with every leading copy of `p` removed.
pub open spec fn trim_start_all(s: Seq<char>, p: Seq<char>) -> Seq<char>
    decreases s.len(),
{
    if p.len() > 0 && has_tag_at(s, 0, p) {
        trim_start_all(s.subrange(p.len() as int, s.len() as int), p)
    } else {
        s
    }
}

/// `s` with every trailing copy of `p` removed.
pub open spec fn trim_end_all(s: Seq<char>, p: Seq<char>) -> Seq<char>
    decreases s.len(),
{
    if p.len() > 0 && p.len() <= s.len() && has_tag_at(s, s.len() - p.len(), p) {
        trim_end_all(s.subrange(0, s.len() - p.len()), p)
    } else {
        s
    }
}

/// Where the converted form of log object `key` goes under `target`: the
/// key without its `fastly_json/` prefixes and `.log.gz` suffixes becomes
/// `<target>/<rest>.json.gz`; a rest without any `/` is first put under
/// `<year>/<month>/<day>/`, read from its characters 0..4, 5..7 and 8..10.
/// `None` when such a rest is shorter than ten characters.
pub open spec fn destination_key_spec(key: Seq<char>, target: Seq<char>) -> Option<Seq<char>> {
    let s = trim_end_all(trim_start_all(key, "fastly_json/"@), ".log.gz"@);
    if find_char(s, 0, '/') is None {
        if s.len() >= 10 {
            Some(
                target + "/"@ + s.subrange(0, 4) + "/"@ + s.subrange(5, 7) + "/"@ + s.subrange(8, 10)
                    + "/"@ + s + ".json.gz"@,
            )
        } else {
            None
        }
    } else {
        Some(target + "/"@ + s + ".json.gz"@)
    }
}

fn exec_trim_start_all(c: &Vec<char>, p: &str) -> (r: usize)
    ensures
        r <= c@.len(),
        c@.subrange(r as int, c@.len() as int) == trim_start_all(c@, p@),
{
    let n = p.unicode_len();
    let len = c.len();
    let mut i: usize = 0;
    assert(c@.subrange(0, c@.len() as int) =~= c@);
    while n > 0 && tag_at(c, i, p)
        invariant
            i <= c@.len(),
            len == c@.len(),
            n == p@.len(),
            trim_start_all(c@.subrange(i as int, c@.len() as int), p@) == trim_start_all(c@, p@),
        decreases c@.len() - i,
    {
        let ghost t = c@.subrange(i as int, c@.len() as int);
        proof {
            assert(t.subrange(0, n as int) =~= c@.subrange(i as int, i + n));
            assert(t.subrange(n as int, t.len() as int) =~= c@.subrange(i + n, c@.len() as int));
        }
        assert(i + n <= len);
        i = i + n;
    }
    proof {
        let t = c@.subrange(i as int, c@.len() as int);
        if n > 0 && n <= t.len() && t.subrange(0, n as int) == p@ {
            assert(t.subrange(0, n as int) =~= c@.subrange(i as int, i + n));
        }
    }
    i
}

fn exec_trim_end_all(c: &Vec<char>, from: usize, p: &str) -> (r: usize)
    requires
        from <= c@.len(),
    ensures
        from <= r <= c@.len(),
        c@.subrange(from as int, r as int) == trim_end_all(c@.subrange(from as int, c@.len() as int), p@),
{
    let n = p.unicode_len();
    let mut j: usize = c.len();
    while n > 0 && j - from >= n && tag_at(c, j - n, p)
        invariant
            from <= j <= c@.len(),
            n == p@.len(),
            trim_end_all(c@.subrange(from as int, j as int), p@) == trim_end_all(
                c@.subrange(from as int, c@.len() as int),
                p@,
            ),
        decreases j,
    {
        let ghost t = c@.subrange(from as int, j as int);
        proof {
            assert(t.subrange(t.len() - n, t.len() as int) =~= c@.subrange(j - n, j as int));
            assert(t.subrange(0, t.len() - n) =~= c@.subrange(from as int, j - n));
        }
        j = j - n;
    }
    proof {
        let t = c@.subrange(from as int, j as int);
        if n > 0 && n <= t.len() {
            assert(t.subrange(t.len() - n, t.len() as int) =~= c@.subrange(j - n, j as int));
        }
    }
    j
}

/// The key under which the converted form of log object `key` is stored
/// (see `destination_key_spec`).
pub fn destination_key(key: &str, target_directory: &str) -> (r: Option<String>)
    ensures
        match r {
            Some(d) => destination_key_spec(key@, target_directory@) == Some(d@),
            None => destination_key_spec(key@, target_directory@) is None,
        },
{
    let c = chars_of(key);
    let a = exec_trim_start_all(&c, "fastly_json/");
    let b = exec_trim_end_all(&c, a, ".log.gz");
    proof {
        assert(c@.subrange(a as int, c@.len() as int).subrange(0, c@.len() - a) =~= c@.subrange(
            a as int,
            c@.len() as int,
        ));
    }
    let rest = piece(key, a, b);
    let rc = chars_of(rest.as_str());
    proof {
        lemma_find_char(rc@, 0, '/');
    }
    let mut out = literal(target_directory);
    out.append("/");
    match scan_char(&rc, 0, '/') {
        None => {
            if rc.len() < 10 {
                return None;
            }
            out.append(piece(rest.as_str(), 0, 4).as_str());
            out.append("/");
            out.append(piece(rest.as_str(), 5, 7).as_str());
            out.append("/");
            out.append(piece(rest.as_str(), 8, 10).as_str());
            out.append("/");
            out.append(rest.as_str());
            out.append(".json.gz");
            Some(out)
        },
        Some(_) => {
            out.append(rest.as_str());
            out.append(".json.gz");
            Some(out)
        },
    }
}

} // verus!
