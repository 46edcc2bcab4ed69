//! Where the weights to quantize come from: the command line, local files and
//! model repositories.

use vstd::prelude::*;
use vstd::string::*;

use crate::text::{before, chars_of, law_before_total, law_before_transitive, precedes, same};

verus! {

// ── command lines ──────────────────────────────────────────────────────────

/// What a quantizer is asked to do.
#[derive(Debug)]
pub struct QuantizeArgs {
    pub input: String,
    pub out_dir: String,
    pub file: Option<String>,
}

/// Why a command line was not understood.
#[derive(Debug, Clone, Copy, PartialEq, Eq, Structural)]
pub enum ArgsError {
    /// There are too few arguments.
    Usage,
    /// `--file` is the last argument.
    FileNeedsName,
}

/// `--file` stands at `i` and not before.
pub open spec fn file_flag_at(args: Seq<String>, i: int) -> bool {
    &&& 0 <= i < args.len()
    &&& args[i]@ == "--file"@
    &&& forall|j: int| 0 <= j < i ==> (#[trigger] args[j])@ != "--file"@
}

/// No argument is `--file`.
pub open spec fn no_file_flag(args: Seq<String>) -> bool {
    forall|j: int| 0 <= j < args.len() ==> (#[trigger] args[j])@ != "--file"@
}

/// Reads a quantizer's command line: input, output directory, and optionally the
/// one file to take from a repository.
pub fn parse_quantize_args(args: &Vec<String>) -> (r: Result<QuantizeArgs, ArgsError>)
    ensures
        match r {
            Ok(a) => {
                &&& args@.len() >= 2
                &&& a.input@ == args@[0]@
                &&& a.out_dir@ == args@[1]@
                &&& match a.file {
                    Some(f) => exists|i: int| #[trigger]
                        file_flag_at(args@, i) && i + 1 < args@.len() && f@ == args@[i + 1]@,
                    None => no_file_flag(args@),
                }
            },
            Err(ArgsError::Usage) => args@.len() < 2,
            Err(ArgsError::FileNeedsName) => args@.len() >= 2 && file_flag_at(
                args@,
                args@.len() - 1,
            ),
        },
{
    let n: usize = args.len();
    if n < 2 {
        return Err(ArgsError::Usage);
    }
    let mut i: usize = 0;
    while i < n
        invariant
            n == args@.len(),
            n >= 2,
            i <= n,
            forall|j: int| 0 <= j < i ==> (#[trigger] args@[j])@ != "--file"@,
        decreases n - i,
    {
        if same(args[i].as_str(), "--file") {
            assert(file_flag_at(args@, i as int));
            if i + 1 == n {
                return Err(ArgsError::FileNeedsName);
            }
            return Ok(
                QuantizeArgs {
                    input: args[0].clone(),
                    out_dir: args[1].clone(),
                    file: Some(args[i + 1].clone()),
                },
            );
        }
        i += 1;
    }
    Ok(QuantizeArgs { input: args[0].clone(), out_dir: args[1].clone(), file: None })
}

/// What a packer is asked to do.
#[derive(Debug)]
pub struct PackArgs {
    pub original: String,
    pub quantized_dir: String,
    pub output: String,
}

/// Reads a packer's command line. Arguments after the third are ignored.
pub fn parse_pack_args(args: &Vec<String>) -> (r: Result<PackArgs, ArgsError>)
    ensures
        match r {
            Ok(a) => args@.len() >= 3 && a.original@ == args@[0]@ && a.quantized_dir@ == args@[1]@
                && a.output@ == args@[2]@,
            Err(e) => args@.len() < 3 && e == ArgsError::Usage,
        },
{
    if args.len() < 3 {
        return Err(ArgsError::Usage);
    }
    Ok(
        PackArgs {
            original: args[0].clone(),
            quantized_dir: args[1].clone(),
            output: args[2].clone(),
        },
    )
}

// ── repositories ───────────────────────────────────────────────────────────

/// The slash at `i` is the only one of `s`, with something on both sides, no
/// leading dot or tilde, and no dot after it.
pub open spec fn parted_at(s: Seq<char>, i: int) -> bool {
    &&& 0 < i < s.len() - 1
    &&& s[i] == '/'
    &&& forall|j: int| 0 <= j < s.len() && j != i ==> #[trigger] s[j] != '/'
    &&& forall|j: int| i < j < s.len() ==> #[trigger] s[j] != '.'
    &&& s[0] != '.'
    &&& s[0] != '~'
}

/// `s` is an owner and a model, both named, with one slash between them, no
/// leading dot or tilde, and no dot in the model's name.
pub open spec fn owner_and_model(s: Seq<char>) -> bool {
    exists|i: int| #[trigger] parted_at(s, i)
}

/// Whether an argument names a model in a repository and not a path. What
/// exists on disk is a path.
pub fn is_hf_model_id(s: &str, exists_on_disk: bool) -> (r: bool)
    ensures
        r == (owner_and_model(s@) && !exists_on_disk),
{
    let cs = chars_of(s);
    let n: usize = cs.len();
    if exists_on_disk || n < 3 || cs[0] == '.' || cs[0] == '~' {
        return false;
    }
    let mut i: usize = 0;
    while i < n && cs[i] != '/'
        invariant
            n == cs@.len(),
            i <= n,
            forall|j: int| 0 <= j < i ==> #[trigger] cs@[j] != '/',
        decreases n - i,
    {
        i += 1;
    }
    if i == 0 || i >= n - 1 {
        proof {
            if owner_and_model(s@) {
                let k = choose|k: int| parted_at(s@, k);
                assert(cs@[k] == '/');
            }
        }
        return false;
    }
    let slash: usize = i;
    let mut j: usize = slash + 1;
    while j < n
        invariant
            n == cs@.len(),
            cs@ == s@,
            0 < slash < j <= n,
            slash < n - 1,
            cs@[slash as int] == '/',
            forall|k: int| 0 <= k < j && k != slash ==> #[trigger] cs@[k] != '/',
            forall|k: int| slash < k < j ==> #[trigger] cs@[k] != '.',
        decreases n - j,
    {
        if cs[j] == '/' || cs[j] == '.' {
            proof {
                if owner_and_model(s@) {
                    let k = choose|k: int| parted_at(s@, k);
                    assert(s@[slash as int] == '/');
                    assert(s@[j as int] == '/' || s@[j as int] == '.');
                }
            }
            return false;
        }
        j += 1;
    }
    assert(parted_at(s@, slash as int));
    true
}

// ── the index of a sharded model ───────────────────────────────────────────

/// Errors of the JSON parser.
#[verifier::external_type_specification]
#[verifier::external_body]
pub struct ExJsonError(serde_json::Error);

/// What `serde_json` finds in the bytes of a JSON document: nothing where they
/// are none; else the members of the object that stands under `key` in the
/// top-level object, or nothing where no object stands there. Of a member only a
/// string is handed out.
pub uninterp spec fn json_members(json: Seq<u8>, key: Seq<char>) -> Option<
    Option<Seq<Option<Seq<char>>>>,
>;

/// The texts of optional strings.
pub open spec fn texts(v: Seq<Option<String>>) -> Seq<Option<Seq<char>>> {
    v.map_values(
        |o: Option<String>|
            match o {
                Some(s) => Some(s@),
                None => None,
            },
    )
}

/// Parses JSON with `serde_json::from_slice` and hands out the members of the
/// object under `key`, in the order of `serde_json::Map::values`. What is
/// claimed is only that the outcome, error or not, is a function of the bytes
/// and the key; the grammar of JSON is not spelled out.
#[verifier::external_body]
fn json_object_members(json: &[u8], key: &str) -> (r: Result<
    Option<Vec<Option<String>>>,
    serde_json::Error,
>)
    ensures
        match r {
            Err(_) => json_members(json@, key@) is None,
            Ok(None) => json_members(json@, key@) == Some(None::<Seq<Option<Seq<char>>>>),
            Ok(Some(v)) => json_members(json@, key@) == Some(Some(texts(v@))),
        },
{
    let document: serde_json::Value = serde_json::from_slice(json)?;
    let object = document.get(key).and_then(|v| v.as_object());
    Ok(object.map(|m| m.values().map(|v| v.as_str().map(String::from)).collect()))
}

/// The text `t` is in the list.
pub open spec fn listed(r: Seq<String>, t: Seq<char>) -> bool {
    exists|i: int| 0 <= i < r.len() && (#[trigger] r[i])@ == t
}

/// The text `t` is among the optional strings.
pub open spec fn among(v: Seq<Option<String>>, t: Seq<char>) -> bool {
    exists|j: int| 0 <= j < v.len() && (#[trigger] v[j]) is Some && v[j]->0@ == t
}

/// The texts of the list ascend.
pub open spec fn ascending(r: Seq<String>) -> bool {
    forall|i: int, j: int|
        0 <= i < j < r.len() ==> before((#[trigger] r[i])@, (#[trigger] r[j])@)
}

/// `r` lists the texts among `v`, each once, in ascending order.
pub open spec fn shard_list(r: Seq<String>, v: Seq<Option<String>>) -> bool {
    &&& ascending(r)
    &&& forall|t: Seq<char>|
        #![trigger listed(r, t)]
        #![trigger among(v, t)]
        listed(r, t) == among(v, t)
}

proof fn lemma_among_push(v: Seq<Option<String>>, o: Option<String>, t: Seq<char>)
    ensures
        among(v.push(o), t) == (among(v, t) || (o is Some && o->0@ == t)),
{
    let w = v.push(o);
    if among(w, t) {
        let j = choose|j: int| 0 <= j < w.len() && (#[trigger] w[j]) is Some && w[j]->0@ == t;
        if j < v.len() {
            assert(v[j] == w[j]);
        }
    }
    if among(v, t) {
        let j = choose|j: int| 0 <= j < v.len() && (#[trigger] v[j]) is Some && v[j]->0@ == t;
        assert(w[j] == v[j]);
    }
    if o is Some && o->0@ == t {
        assert(w[v.len() as int] == o);
    }
}

proof fn lemma_listed_insert(r: Seq<String>, at: int, s: String, t: Seq<char>)
    requires
        0 <= at <= r.len(),
    ensures
        listed(r.insert(at, s), t) == (listed(r, t) || s@ == t),
{
    let w = r.insert(at, s);
    if listed(w, t) {
        let i = choose|i: int| 0 <= i < w.len() && (#[trigger] w[i])@ == t;
        if i < at {
            assert(r[i] == w[i]);
        } else if i > at {
            assert(r[i - 1] == w[i]);
        }
    }
    if listed(r, t) {
        let i = choose|i: int| 0 <= i < r.len() && (#[trigger] r[i])@ == t;
        if i < at {
            assert(w[i] == r[i]);
        } else {
            assert(w[i + 1] == r[i]);
        }
    }
    if s@ == t {
        assert(w[at] == s);
    }
}

/// Puts a text where it belongs, unless it is there.
fn insert_text(r: &mut Vec<String>, s: &String)
    requires
        ascending(old(r)@),
    ensures
        ascending(final(r)@),
        forall|t: Seq<char>| #[trigger]
            listed(final(r)@, t) == (listed(old(r)@, t) || t == s@),
{
    let ghost old_r = r@;
    let mut at: usize = 0;
    while at < r.len() && precedes(r[at].as_str(), s.as_str())
        invariant
            r@ == old_r,
            at <= r@.len(),
            forall|i: int| 0 <= i < at ==> before((#[trigger] r@[i])@, s@),
        decreases r@.len() - at,
    {
        at += 1;
    }
    if at < r.len() && same(r[at].as_str(), s.as_str()) {
        assert(old_r[at as int]@ == s@);
        return;
    }
    let copy = s.clone();
    r.insert(at, copy);
    proof {
        let p = at as int;
        let new_r = r@;
        assert(new_r == old_r.insert(p, copy));
        assert forall|t: Seq<char>| #[trigger] listed(new_r, t) == (listed(old_r, t) || t == s@) by {
            lemma_listed_insert(old_r, p, copy, t);
        }
        if p < old_r.len() {
            law_before_total(old_r[p]@, s@);
            assert(before(s@, old_r[p]@));
        }
        assert forall|i: int, j: int| 0 <= i < j < new_r.len() implies before(
            (#[trigger] new_r[i])@,
            (#[trigger] new_r[j])@,
        ) by {
            let oi = if i < p { i } else { i - 1 };
            let oj = if j < p { j } else { j - 1 };
            if i != p {
                assert(new_r[i] == old_r[oi]);
            }
            if j != p {
                assert(new_r[j] == old_r[oj]);
            }
            if i == p {
                if oj > p {
                    assert(before(old_r[p]@, old_r[oj]@));
                    law_before_transitive(s@, old_r[p]@, old_r[oj]@);
                }
            } else if j != p {
                assert(before(old_r[oi]@, old_r[oj]@));
            }
        }
    }
}

/// The texts among `v`, each once, in ascending order.
pub fn shard_files(v: &Vec<Option<String>>) -> (r: Vec<String>)
    ensures
        shard_list(r@, v@),
{
    let mut r: Vec<String> = Vec::new();
    let n: usize = v.len();
    let mut i: usize = 0;
    while i < n
        invariant
            n == v@.len(),
            i <= n,
            shard_list(r@, v@.take(i as int)),
        decreases n - i,
    {
        let ghost seen = v@.take(i as int);
        let ghost before_r = r@;
        match &v[i] {
            Some(s) => {
                insert_text(&mut r, s);
            },
            None => {},
        }
        proof {
            let now = v@.take(i + 1);
            assert(now =~= seen.push(v@[i as int]));
            assert forall|t: Seq<char>| #[trigger] listed(r@, t) == among(now, t) by {
                lemma_among_push(seen, v@[i as int], t);
                assert(listed(before_r, t) == among(seen, t));
            }
        }
        i += 1;
    }
    assert(v@.take(i as int) =~= v@);
    r
}

/// The shards that an index names, each once, in ascending order.
pub open spec fn index_shards(json: Seq<u8>, r: Seq<String>) -> bool {
    exists|v: Seq<Option<String>>|
        {
            &&& json_members(json, "weight_map"@) == Some(Some(#[trigger] texts(v)))
            &&& shard_list(r, v)
        }
}

/// Reads the shards out of a model's index. `Ok(None)` where the index has no
/// weight map.
pub fn shards_of_index(json: &[u8]) -> (r: Result<Option<Vec<String>>, serde_json::Error>)
    ensures
        match r {
            Err(_) => json_members(json@, "weight_map"@) is None,
            Ok(None) => json_members(json@, "weight_map"@) == Some(
                None::<Seq<Option<Seq<char>>>>,
            ),
            Ok(Some(files)) => index_shards(json@, files@),
        },
{
    match json_object_members(json, "weight_map") {
        Err(e) => Err(e),
        Ok(None) => Ok(None),
        Ok(Some(v)) => {
            let files = shard_files(&v);
            assert(json_members(json@, "weight_map"@) == Some(Some(texts(v@))));
            Ok(Some(files))
        },
    }
}

// ── downloading ────────────────────────────────────────────────────────────

/// The program that downloads. They differ in what they make of an index that
/// names no shard.
#[derive(Debug, Clone, Copy, PartialEq, Eq, Structural)]
pub enum Downloader {
    /// No weight map, or an empty one, is an error.
    Baseline,
    /// No weight map is an error; an empty one is not.
    Experimental,
}

/// Why a download failed.
#[derive(Debug)]
pub enum DownloadError {
    /// The file that was asked for could not be fetched.
    File(String),
    /// There is neither a single file nor an index.
    NoIndex,
    /// The index could not be parsed.
    BadIndex,
    /// The index has no weight map.
    NoWeightMap,
    /// The index names no shard.
    NoFiles,
    /// A shard could not be fetched.
    Shard(String),
}

/// How far a download has come.
#[derive(Debug)]
pub enum DownloadState {
    /// Fetching the file that was asked for.
    Explicit(String),
    /// Fetching a model in one file.
    Single,
    /// Fetching the index of a sharded model.
    Index,
    /// Reading the index, which has been fetched.
    ReadIndex,
    /// Fetching the shards; the first ones are there.
    Shards(Vec<String>, usize),
    /// All files are there.
    Done,
    /// The download failed.
    Failed(DownloadError),
}

/// What has happened.
#[derive(Debug)]
pub enum DownloadEvent<'a> {
    /// The file was fetched, or not.
    Fetched(bool),
    /// The bytes of the index.
    IndexRead(&'a [u8]),
}

impl DownloadState {
    /// A download is of one given file, or of the whole model.
    pub fn start(filename: Option<&str>) -> (s: DownloadState)
        ensures
            match filename {
                Some(f) => s is Explicit && s->Explicit_0@ == f@,
                None => s is Single,
            },
    {
        match filename {
            Some(f) => DownloadState::Explicit(f.to_owned()),
            None => DownloadState::Single,
        }
    }

    /// Of the shards that are fetched, those that are there come first.
    pub open spec fn wf(&self) -> bool {
        match self {
            DownloadState::Shards(files, n) => n < files@.len(),
            _ => true,
        }
    }

    /// The file to fetch now, if the download is at a point where one is
    /// fetched.
    pub fn wanted(&self) -> (r: Option<String>)
        requires
            self.wf(),
        ensures
            match self {
                DownloadState::Explicit(f) => r is Some && r->0@ == f@,
                DownloadState::Single => r is Some && r->0@ == "model.safetensors"@,
                DownloadState::Index => r is Some && r->0@ == "model.safetensors.index.json"@,
                DownloadState::Shards(files, n) => r is Some && r->0@ == files@[*n as int]@,
                _ => r is None,
            },
    {
        match self {
            DownloadState::Explicit(f) => Some(f.clone()),
            DownloadState::Single => Some("model.safetensors".to_owned()),
            DownloadState::Index => Some("model.safetensors.index.json".to_owned()),
            DownloadState::Shards(files, n) => Some(files[*n].clone()),
            _ => None,
        }
    }

    /// Whether a file fetched now is one of the model's.
    pub fn keeps(&self) -> (r: bool)
        ensures
            r == (self is Explicit || self is Single || self is Shards),
    {
        match self {
            DownloadState::Explicit(_) => true,
            DownloadState::Single => true,
            DownloadState::Shards(_, _) => true,
            _ => false,
        }
    }

    /// What the download does next.
    pub fn next(self, event: DownloadEvent, downloader: Downloader) -> (r: DownloadState)
        requires
            self.wf(),
        ensures
            r.wf(),
            match (self, event) {
                (DownloadState::Explicit(f), DownloadEvent::Fetched(ok)) => if ok {
                    r is Done
                } else {
                    r is Failed && r->Failed_0 is File && r->Failed_0->File_0@ == f@
                },
                (DownloadState::Single, DownloadEvent::Fetched(ok)) => if ok {
                    r is Done
                } else {
                    r is Index
                },
                (DownloadState::Index, DownloadEvent::Fetched(ok)) => if ok {
                    r is ReadIndex
                } else {
                    r is Failed && r->Failed_0 is NoIndex
                },
                (DownloadState::ReadIndex, DownloadEvent::IndexRead(json)) => {
                    let members = json_members(json@, "weight_map"@);
                    if members is None {
                        r is Failed && r->Failed_0 is BadIndex
                    } else if members->0 is None {
                        r is Failed && (if downloader is Baseline {
                            r->Failed_0 is NoFiles
                        } else {
                            r->Failed_0 is NoWeightMap
                        })
                    } else {
                        ||| r is Shards && r->Shards_1 == 0 && index_shards(
                            json@,
                            r->Shards_0@,
                        )
                        ||| index_shards(json@, Seq::empty()) && (if downloader is Baseline {
                            r is Failed && r->Failed_0 is NoFiles
                        } else {
                            r is Done
                        })
                    }
                },
                (DownloadState::Shards(files, n), DownloadEvent::Fetched(ok)) => if !ok {
                    r is Failed && r->Failed_0 is Shard && r->Failed_0->Shard_0@ == files@[n as int]@
                } else if n + 1 == files@.len() {
                    r is Done
                } else {
                    r == DownloadState::Shards(files, (n + 1) as usize)
                },
                _ => r == self,
            },
    {
        match (self, event) {
            (DownloadState::Explicit(f), DownloadEvent::Fetched(ok)) => if ok {
                DownloadState::Done
            } else {
                DownloadState::Failed(DownloadError::File(f))
            },
            (DownloadState::Single, DownloadEvent::Fetched(ok)) => if ok {
                DownloadState::Done
            } else {
                DownloadState::Index
            },
            (DownloadState::Index, DownloadEvent::Fetched(ok)) => if ok {
                DownloadState::ReadIndex
            } else {
                DownloadState::Failed(DownloadError::NoIndex)
            },
            (DownloadState::ReadIndex, DownloadEvent::IndexRead(json)) => match shards_of_index(
                json,
            ) {
                Err(_) => DownloadState::Failed(DownloadError::BadIndex),
                Ok(None) => match downloader {
                    Downloader::Baseline => DownloadState::Failed(DownloadError::NoFiles),
                    Downloader::Experimental => DownloadState::Failed(DownloadError::NoWeightMap),
                },
                Ok(Some(files)) => if files.len() > 0 {
                    DownloadState::Shards(files, 0)
                } else {
                    assert(files@ =~= Seq::<String>::empty());
                    match downloader {
                        Downloader::Baseline => DownloadState::Failed(DownloadError::NoFiles),
                        Downloader::Experimental => DownloadState::Done,
                    }
                },
            },
            (DownloadState::Shards(files, n), DownloadEvent::Fetched(ok)) => if !ok {
                let name = files[n].clone();
                DownloadState::Failed(DownloadError::Shard(name))
            } else if n == files.len() - 1 {
                DownloadState::Done
            } else {
                DownloadState::Shards(files, n + 1)
            },
            (state, _) => state,
        }
    }
}

// ── what these forms are ───────────────────────────────────────────────────

/// An owner, a slash and a model make the name of a model in a repository, and
/// every such name is made so.
pub proof fn law_models_have_owners(s: Seq<char>)
    ensures
        owner_and_model(s) <==> exists|owner: Seq<char>, model: Seq<char>|
            {
                &&& s == #[trigger] (owner + seq!['/'] + model)
                &&& owner.len() > 0
                &&& model.len() > 0
                &&& !owner.contains('/')
                &&& !model.contains('/')
                &&& !model.contains('.')
                &&& owner[0] != '.'
                &&& owner[0] != '~'
            },
{
    if owner_and_model(s) {
        let i = choose|i: int| #[trigger] parted_at(s, i);
        let owner = s.take(i);
        let model = s.skip(i + 1);
        assert(s =~= owner + seq!['/'] + model);
        assert(!owner.contains('/')) by {
            if owner.contains('/') {
                let j = choose|j: int| 0 <= j < owner.len() && owner[j] == '/';
                assert(s[j] == '/');
            }
        }
        assert(!model.contains('/')) by {
            if model.contains('/') {
                let j = choose|j: int| 0 <= j < model.len() && model[j] == '/';
                assert(s[i + 1 + j] == '/');
            }
        }
        assert(!model.contains('.')) by {
            if model.contains('.') {
                let j = choose|j: int| 0 <= j < model.len() && model[j] == '.';
                assert(s[i + 1 + j] == '.');
            }
        }
        assert(owner[0] == s[0]);
    }
    assert forall|owner: Seq<char>, model: Seq<char>|
        {
            &&& s == #[trigger] (owner + seq!['/'] + model)
            &&& owner.len() > 0
            &&& model.len() > 0
            &&& !owner.contains('/')
            &&& !model.contains('/')
            &&& !model.contains('.')
            &&& owner[0] != '.'
            &&& owner[0] != '~'
        } implies owner_and_model(s) by {
        let i = owner.len() as int;
        assert(s[0] == owner[0]);
        assert(s[i] == '/');
        assert forall|j: int| 0 <= j < s.len() && j != i implies #[trigger] s[j] != '/' by {
            if j < i {
                assert(s[j] == owner[j]);
            } else {
                assert(s[j] == model[j - i - 1]);
            }
        }
        assert forall|j: int| i < j < s.len() implies #[trigger] s[j] != '.' by {
            assert(s[j] == model[j - i - 1]);
        }
        assert(parted_at(s, i));
    }
}

/// Of several `--file` the first one counts.
pub proof fn law_first_file_flag_counts(args: Seq<String>, i: int, j: int)
    requires
        file_flag_at(args, i),
        0 <= j < args.len(),
        args[j]@ == "--file"@,
    ensures
        i <= j,
        args[i]@ == "--file"@,
        !no_file_flag(args),
{
}

/// Every text of an index is in the list of shards, no other is, and none is
/// there twice.
pub proof fn law_each_shard_once(r: Seq<String>, v: Seq<Option<String>>, i: int, j: int)
    requires
        shard_list(r, v),
    ensures
        0 <= j < v.len() && v[j] is Some ==> exists|n: int|
            0 <= n < r.len() && (#[trigger] r[n])@ == v[j]->0@,
        0 <= i < r.len() ==> exists|n: int|
            0 <= n < v.len() && (#[trigger] v[n]) is Some && v[n]->0@ == r[i]@,
        0 <= i < j < r.len() ==> before(r[i]@, r[j]@) && r[i]@ != r[j]@,
{
    if 0 <= j < v.len() && v[j] is Some {
        let t = v[j]->0@;
        assert(among(v, t));
        assert(listed(r, t));
    }
    if 0 <= i < r.len() {
        assert(listed(r, r[i]@));
        assert(among(v, r[i]@));
    }
    if 0 <= i < j < r.len() {
        assert(before(r[i]@, r[j]@));
        law_before_total(r[i]@, r[j]@);
    }
}

/// The first two arguments are the input and the output directory, and the
/// argument behind the first `--file` is the file.
pub proof fn law_arguments_of_a_quantizer(
    args: &Vec<String>,
    i: int,
    r: Result<QuantizeArgs, ArgsError>,
)
    requires
        call_ensures(parse_quantize_args, (args,), r),
    ensures
        r is Ok ==> args@.len() >= 2 && r->Ok_0.input@ == args@[0]@ && r->Ok_0.out_dir@
            == args@[1]@,
        args@.len() >= 2 && (forall|j: int|
            0 <= j < args@.len() ==> (#[trigger] args@[j])@ != "--file"@) ==> r is Ok
            && r->Ok_0.file is None,
        args@.len() >= 2 && 0 <= i < args@.len() - 1 && args@[i]@ == "--file"@ && (forall|j: int|
            0 <= j < i ==> (#[trigger] args@[j])@ != "--file"@) ==> r is Ok && r->Ok_0.file is Some
            && r->Ok_0.file->0@ == args@[i + 1]@,
        args@.len() < 2 ==> r is Err,
{
}

/// An argument is a model's name where it has an owner and a model around one
/// slash and nothing of the name is on disk.
pub proof fn law_names_and_paths(
    s: &str,
    owner: Seq<char>,
    model: Seq<char>,
    r: bool,
    on_disk: bool,
)
    requires
        s@ == owner + seq!['/'] + model,
        owner.len() > 0,
        model.len() > 0,
        !owner.contains('/'),
        !model.contains('/'),
        !model.contains('.'),
        owner[0] != '.',
        owner[0] != '~',
        call_ensures(is_hf_model_id, (s, on_disk), r),
    ensures
        r == !on_disk,
{
    law_models_have_owners(s@);
}

/// The shards are fetched one after the other, each as the list has it; the
/// download is over when the last one is there and not before, and a shard that
/// cannot be fetched ends it.
pub proof fn law_every_shard_is_fetched(
    files: Vec<String>,
    n: usize,
    downloader: Downloader,
    wanted: Option<String>,
    fetched: DownloadState,
    failed: DownloadState,
)
    requires
        n < files@.len(),
        call_ensures(DownloadState::wanted, (&DownloadState::Shards(files, n),), wanted),
        call_ensures(
            DownloadState::next,
            (DownloadState::Shards(files, n), DownloadEvent::Fetched(true), downloader),
            fetched,
        ),
        call_ensures(
            DownloadState::next,
            (DownloadState::Shards(files, n), DownloadEvent::Fetched(false), downloader),
            failed,
        ),
    ensures
        wanted is Some && wanted->0@ == files@[n as int]@,
        fetched is Done <==> n == files@.len() - 1,
        n < files@.len() - 1 ==> fetched == DownloadState::Shards(files, (n + 1) as usize),
        failed is Failed,
{
}

} // verus!
