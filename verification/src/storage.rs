//! The keypair vault: proposes collision-checked storage paths and
//! lists stored keypair metadata without ever materializing
//! private-key bytes. The filesystem is the owner of the records; the
//! vault is a stateless accessor over what a directory scan hands it.

use vstd::prelude::*;

use crate::config::WalletConfig;
use crate::error::WalletError;
use crate::host;
use crate::jsonval;
use crate::text::dec_digits;
use crate::text::expect_lit;
use crate::text::append_u64;
use crate::text::path_join;
use crate::text::path_joined;
use crate::text::sanitize_filename;
use crate::text::sanitized;

verus! {

use vstd::string::StrSliceExecFns;
use vstd::string::StringExecFns;

/// Metadata of one stored keypair — never the private key.
#[derive(Debug)]
pub struct StoredKeypair {
    /// Human-readable name, the backing file's stem.
    pub name: String,
    /// String-encoded public key, safe to display.
    pub public_key: String,
    /// Absolute path of the backing file.
    pub file_path: String,
    /// Creation timestamp, Unix seconds.
    pub created_at: u64,
}

/// What a directory scan hands the vault for one candidate file: its
/// base name, its content (`None` where it could not be read), and
/// its modification time in Unix seconds where known.
#[derive(Debug)]
pub struct KeypairFileEntry {
    pub name: String,
    pub content: Option<String>,
    pub mtime: Option<u64>,
}

/// The two plaintext fields of one keypair file after extraction,
/// together with the file's identity.
pub struct KeypairFileFields {
    pub name: String,
    pub storage_path: String,
    pub public_key: Option<String>,
    pub created_at: Option<u64>,
    pub mtime: Option<u64>,
}

/// The timestamp a record carries: the embedded field first, else the
/// file's modification time, else 0.
pub open spec fn fallback_created_at(ca: Option<u64>, mtime: Option<u64>) -> u64 {
    match ca {
        Some(t) => t,
        None => match mtime {
            Some(t) => t,
            None => 0,
        },
    }
}

/// The record a well-formed set of fields yields. Only applied where
/// `public_key` is present.
pub open spec fn spec_record(f: KeypairFileFields) -> StoredKeypair {
    StoredKeypair {
        name: f.name,
        public_key: match f.public_key {
            Some(p) => p,
            None => f.name,
        },
        file_path: f.storage_path,
        created_at: fallback_created_at(f.created_at, f.mtime),
    }
}

/// The records of a run of files, in file order: exactly those with a
/// `public_key`, each as `spec_record` renders it.
pub open spec fn records_of(s: Seq<KeypairFileFields>) -> Seq<StoredKeypair>
    decreases s.len(),
{
    if s.len() == 0 {
        Seq::empty()
    } else {
        (match s[0].public_key {
            Some(_) => seq![spec_record(s[0])],
            None => Seq::empty(),
        }) + records_of(s.skip(1))
    }
}

/// Newest first.
pub open spec fn sorted_by_created_desc(s: Seq<StoredKeypair>) -> bool {
    forall|i: int, j: int| 0 <= i < j < s.len() ==> s[i].created_at >= s[j].created_at
}

/// The view of one record: its fields as sequences and plain values.
pub struct StoredKeypairV {
    pub name: Seq<char>,
    pub public_key: Seq<char>,
    pub file_path: Seq<char>,
    pub created_at: u64,
}

impl View for StoredKeypair {
    type V = StoredKeypairV;

    open spec fn view(&self) -> StoredKeypairV {
        StoredKeypairV {
            name: self.name@,
            public_key: self.public_key@,
            file_path: self.file_path@,
            created_at: self.created_at,
        }
    }
}

pub open spec fn view_of_records(s: Seq<StoredKeypair>) -> Seq<StoredKeypairV> {
    s.map_values(|k: StoredKeypair| k@)
}

/// Insertion of one record into a descending run: directly before the
/// first strictly older record, so an equally old record lands behind
/// those already present — the sort built from this is stable.
pub open spec fn insert_sorted(s: Seq<StoredKeypair>, x: StoredKeypair) -> Seq<StoredKeypair>
    decreases s.len(),
{
    if s.len() == 0 {
        seq![x]
    } else if s[0].created_at < x.created_at {
        seq![x] + s
    } else {
        seq![s[0]] + insert_sorted(s.skip(1), x)
    }
}

/// The listing order: records folded left to right into a descending
/// run. A pure function of the input, so repeated listings of
/// unchanged input agree, tie order included.
pub open spec fn spec_sort_desc(s: Seq<StoredKeypair>) -> Seq<StoredKeypair>
    decreases s.len(),
{
    if s.len() == 0 {
        Seq::empty()
    } else {
        insert_sorted(spec_sort_desc(s.take(s.len() - 1)), s[s.len() - 1])
    }
}

/// `insert_sorted`, at the view level.
pub open spec fn insert_sorted_v(s: Seq<StoredKeypairV>, x: StoredKeypairV) -> Seq<StoredKeypairV>
    decreases s.len(),
{
    if s.len() == 0 {
        seq![x]
    } else if s[0].created_at < x.created_at {
        seq![x] + s
    } else {
        seq![s[0]] + insert_sorted_v(s.skip(1), x)
    }
}

/// `spec_sort_desc`, at the view level.
pub open spec fn spec_sort_desc_v(s: Seq<StoredKeypairV>) -> Seq<StoredKeypairV>
    decreases s.len(),
{
    if s.len() == 0 {
        Seq::empty()
    } else {
        insert_sorted_v(spec_sort_desc_v(s.take(s.len() - 1)), s[s.len() - 1])
    }
}

/// Inserting at the first position whose record is strictly older is
/// exactly `insert_sorted`.
proof fn lemma_insert_at_pos(s: Seq<StoredKeypair>, x: StoredKeypair, j: int)
    requires
        0 <= j <= s.len(),
        forall|k: int| 0 <= k < j ==> s[k].created_at >= x.created_at,
        j == s.len() || s[j].created_at < x.created_at,
    ensures
        s.insert(j, x) == insert_sorted(s, x),
    decreases j,
{
    if j == 0 {
        if s.len() == 0 {
            assert(s.insert(0, x) =~= seq![x]);
        } else {
            assert(s.insert(0, x) =~= seq![x] + s);
        }
    } else {
        lemma_insert_at_pos(s.skip(1), x, j - 1);
        assert(s.insert(j, x) =~= seq![s[0]] + s.skip(1).insert(j - 1, x));
    }
}

/// Sorting commutes with taking views: the comparison reads only
/// `created_at`, which the view keeps.
proof fn lemma_insert_view(s: Seq<StoredKeypair>, x: StoredKeypair)
    ensures
        view_of_records(insert_sorted(s, x)) == insert_sorted_v(view_of_records(s), x@),
    decreases s.len(),
{
    let sv = view_of_records(s);
    if s.len() == 0 {
        assert(view_of_records(seq![x]) =~= seq![x@]);
        assert(insert_sorted_v(sv, x@) =~= seq![x@]);
    } else if s[0].created_at < x.created_at {
        assert(sv[0] == s[0]@);
        assert(view_of_records(seq![x] + s) =~= seq![x@] + sv);
    } else {
        lemma_insert_view(s.skip(1), x);
        assert(sv[0] == s[0]@);
        assert(view_of_records(s.skip(1)) =~= sv.skip(1));
        assert(view_of_records(seq![s[0]] + insert_sorted(s.skip(1), x)) =~= seq![sv[0]]
            + view_of_records(insert_sorted(s.skip(1), x)));
    }
}

proof fn lemma_sort_view(s: Seq<StoredKeypair>)
    ensures
        view_of_records(spec_sort_desc(s)) == spec_sort_desc_v(view_of_records(s)),
    decreases s.len(),
{
    let sv = view_of_records(s);
    if s.len() == 0 {
        assert(view_of_records(spec_sort_desc(s)) =~= Seq::<StoredKeypairV>::empty());
        assert(spec_sort_desc_v(sv) =~= Seq::<StoredKeypairV>::empty());
    } else {
        let s1 = s.take(s.len() - 1);
        lemma_sort_view(s1);
        lemma_insert_view(spec_sort_desc(s1), s[s.len() - 1]);
        assert(view_of_records(s1) =~= sv.take(sv.len() - 1));
        assert(sv[sv.len() - 1] == s[s.len() - 1]@);
    }
}

/// The record one directory entry yields, through the named JSON
/// extraction: `None` for a name without the `.json` extension, an
/// unreadable file, or a document without a string `public_key`.
pub open spec fn record_of_entry(e: KeypairFileEntry, dir: Seq<char>) -> Option<StoredKeypairV> {
    if is_json_name(e.name@) {
        match e.content {
            Some(c) => match crate::jsonval::json_public_key_of(c@) {
                Some(pk) => Some(
                    StoredKeypairV {
                        name: stem_of(e.name@),
                        public_key: pk,
                        file_path: path_joined(dir, e.name@),
                        created_at: fallback_created_at(
                            crate::jsonval::json_created_at_of(c@),
                            e.mtime,
                        ),
                    },
                ),
                None => None,
            },
            None => None,
        }
    } else {
        None
    }
}

/// The records of a directory scan, in scan order: one per entry the
/// extraction accepts, none for any other entry, however malformed.
pub open spec fn records_of_entries(s: Seq<KeypairFileEntry>, dir: Seq<char>) -> Seq<
    StoredKeypairV,
>
    decreases s.len(),
{
    if s.len() == 0 {
        Seq::empty()
    } else {
        (match record_of_entry(s[0], dir) {
            Some(rv) => seq![rv],
            None => Seq::empty(),
        }) + records_of_entries(s.skip(1), dir)
    }
}

proof fn lemma_records_of_push(s: Seq<KeypairFileFields>, f: KeypairFileFields)
    ensures
        records_of(s.push(f)) == records_of(s) + (match f.public_key {
            Some(_) => seq![spec_record(f)],
            None => Seq::<StoredKeypair>::empty(),
        }),
    decreases s.len(),
{
    let piece = match f.public_key {
        Some(_) => seq![spec_record(f)],
        None => Seq::<StoredKeypair>::empty(),
    };
    if s.len() == 0 {
        assert(s.push(f)[0] == f);
        assert(s.push(f).skip(1) =~= Seq::<KeypairFileFields>::empty());
        assert(records_of(Seq::<KeypairFileFields>::empty()) =~= Seq::<StoredKeypair>::empty());
        assert(records_of(s.push(f)) =~= records_of(s) + piece);
    } else {
        lemma_records_of_push(s.skip(1), f);
        assert(s.push(f).skip(1) =~= s.skip(1).push(f));
        assert(s.push(f)[0] == s[0]);
        let head = match s[0].public_key {
            Some(_) => seq![spec_record(s[0])],
            None => Seq::<StoredKeypair>::empty(),
        };
        assert(head + (records_of(s.skip(1)) + piece) =~= (head + records_of(s.skip(1))) + piece);
    }
}

/// Builds the metadata record for one keypair file from its extracted
/// fields: `public_key` is required, and its absence is the one
/// failure; `created_at` falls back to the file's modification time,
/// then to 0.
pub fn record_from_fields(f: KeypairFileFields) -> (r: Result<StoredKeypair, WalletError>)
    ensures
        match f.public_key {
            Some(_) => r matches Ok(rec) && rec == spec_record(f),
            None => r matches Err(e) && e matches WalletError::InvalidKeypairFormat(_),
        },
{
    let KeypairFileFields { name, storage_path, public_key, created_at, mtime } = f;
    match public_key {
        Some(p) => {
            let ts: u64 = match created_at {
                Some(t) => t,
                None => match mtime {
                    Some(t) => t,
                    None => 0,
                },
            };
            Ok(StoredKeypair { name, public_key: p, file_path: storage_path, created_at: ts })
        },
        None => Err(
            WalletError::InvalidKeypairFormat(
                String::from_str("keypair file is missing its public_key field"),
            ),
        ),
    }
}

/// Keeps the records of the well-formed files and orders them newest
/// first: every file with a `public_key` is included, every file
/// without one is excluded, nothing else changes the set, and the
/// result is the one `spec_sort_desc` fixes.
pub fn assemble_records(files: Vec<KeypairFileFields>) -> (r: Vec<StoredKeypair>)
    ensures
        r@ == spec_sort_desc(records_of(files@)),
        r@.to_multiset() == records_of(files@).to_multiset(),
        sorted_by_created_desc(r@),
{
    let ghost files0 = files@;
    let mut files = files;
    let mut kept: Vec<StoredKeypair> = Vec::new();
    proof {
        assert(kept@ + records_of(files@) =~= records_of(files0));
    }
    while files.len() > 0
        invariant
            kept@ + records_of(files@) == records_of(files0),
        decreases files.len(),
    {
        let ghost pre = files@;
        let e = files.remove(0);
        proof {
            assert(pre.remove(0) =~= pre.skip(1));
        }
        match record_from_fields(e) {
            Ok(rec) => {
                let ghost kept_pre = kept@;
                kept.push(rec);
                proof {
                    assert(kept@ + records_of(files@) =~= kept_pre + records_of(pre));
                }
            },
            Err(_) => {
                proof {
                    assert(kept@ + records_of(files@) =~= kept@ + records_of(pre));
                }
            },
        }
    }
    proof {
        assert(records_of(files@) =~= Seq::<StoredKeypair>::empty());
        assert(kept@ + records_of(files@) =~= kept@);
        assert(kept@ == records_of(files0));
    }
    sort_records_desc(kept)
}

/// Orders records newest first, as `spec_sort_desc` renders it: a
/// stable insertion, so the result is a function of the input and
/// ties keep their input order.
fn sort_records_desc(v: Vec<StoredKeypair>) -> (r: Vec<StoredKeypair>)
    ensures
        r@ == spec_sort_desc(v@),
        r@.to_multiset() == v@.to_multiset(),
        sorted_by_created_desc(r@),
{
    broadcast use vstd::seq_lib::group_to_multiset_ensures;
    broadcast use vstd::multiset::group_multiset_axioms;

    let mut rest = v;
    let mut out: Vec<StoredKeypair> = Vec::new();
    let ghost mut done: int = 0int;
    proof {
        assert(out@.to_multiset().add(rest@.to_multiset()) =~= v@.to_multiset());
        assert(rest@ =~= v@.skip(0));
        assert(spec_sort_desc(v@.take(0)) =~= Seq::<StoredKeypair>::empty());
    }
    while rest.len() > 0
        invariant
            out@.to_multiset().add(rest@.to_multiset()) == v@.to_multiset(),
            sorted_by_created_desc(out@),
            0 <= done <= v@.len(),
            rest@ == v@.skip(done),
            out@ == spec_sort_desc(v@.take(done)),
        decreases rest.len(),
    {
        let ghost rest_pre = rest@;
        let x = rest.remove(0);
        proof {
            assert(x == v@[done]);
            assert(rest@ =~= v@.skip(done + 1));
        }
        let mut j: usize = 0;
        while j < out.len() && out[j].created_at >= x.created_at
            invariant
                j <= out@.len(),
                forall|k: int| 0 <= k < j ==> out@[k].created_at >= x.created_at,
            decreases out@.len() - j,
        {
            j = j + 1;
        }
        let ghost out_pre = out@;
        out.insert(j, x);
        proof {
            lemma_insert_at_pos(out_pre, x, j as int);
            assert(v@.take(done + 1).take(done) =~= v@.take(done));
            assert(v@.take(done + 1)[done] == v@[done]);
            assert(out@ == spec_sort_desc(v@.take(done + 1)));
            done = done + 1;
            vstd::seq_lib::to_multiset_remove(rest_pre, 0);
            vstd::seq_lib::to_multiset_insert(out_pre, j as int, x);
            vstd::seq_lib::to_multiset_contains(rest_pre, x);
            assert(rest_pre.contains(x)) by {
                assert(rest_pre[0] == x);
            }
            assert(rest_pre.to_multiset().count(x) > 0);
            assert(out@.to_multiset().add(rest@.to_multiset()) =~= out_pre.to_multiset().add(
                rest_pre.to_multiset(),
            ));
            assert forall|a: int, b: int| 0 <= a < b < out@.len() implies out@[a].created_at
                >= out@[b].created_at by {
                if b < j {
                    assert(out@[a] == out_pre[a]);
                    assert(out@[b] == out_pre[b]);
                } else if b == j {
                    assert(out@[a] == out_pre[a]);
                    assert(out@[b] == x);
                } else {
                    assert(out@[b] == out_pre[b - 1]);
                    assert((j as int) < out_pre.len());
                    assert(out_pre[j as int].created_at < x.created_at);
                    if (j as int) < b - 1 {
                        assert(out_pre[j as int].created_at >= out_pre[b - 1].created_at);
                    }
                    if a < j {
                        assert(out@[a] == out_pre[a]);
                        assert(out_pre[a].created_at >= out_pre[b - 1].created_at);
                    } else if a == j {
                        assert(out@[a] == x);
                    } else {
                        assert(out@[a] == out_pre[a - 1]);
                        assert(out_pre[a - 1].created_at >= out_pre[b - 1].created_at);
                    }
                }
            }
        }
    }
    proof {
        assert(rest@ =~= Seq::<StoredKeypair>::empty());
        assert(out@.to_multiset().add(rest@.to_multiset()) =~= out@.to_multiset());
        assert(done == v@.len());
        assert(v@.take(done) =~= v@);
    }
    out
}

/// Whether a file name carries the metadata extension the vault
/// recognizes, with a non-empty stem.
pub open spec fn is_json_name(n: Seq<char>) -> bool {
    n.len() >= 6 && n.subrange(n.len() - 5, n.len() as int) == ".json"@
}

fn has_json_ext(name: &str) -> (r: bool)
    ensures
        r == is_json_name(name@),
{
    let len = name.unicode_len();
    proof {
        reveal_strlit(".json");
    }
    if len < 6 {
        return false;
    }
    match expect_lit(name, len - 5, ".json") {
        Some(_) => true,
        None => false,
    }
}

/// The index of the last `.` that separates a stem from an extension:
/// the final `.` at position 1 or later, `-1` where there is none.
pub open spec fn last_dot(s: Seq<char>) -> int
    decreases s.len(),
{
    if s.len() <= 1 {
        -1
    } else if s[s.len() - 1] == '.' {
        s.len() - 1
    } else {
        last_dot(s.take(s.len() - 1))
    }
}

/// The stem of a file name: everything before the final extension
/// separator; the whole name where there is none, a leading `.`
/// counting as part of the name rather than as a separator.
pub open spec fn stem_of(n: Seq<char>) -> Seq<char> {
    if last_dot(n) == -1 {
        n
    } else {
        n.take(last_dot(n))
    }
}

/// The stem of a file name.
pub fn file_stem(name: &str) -> (r: String)
    ensures
        r@ == stem_of(name@),
{
    let len = name.unicode_len();
    proof {
        assert(name@.take(len as int) =~= name@);
    }
    let mut j: usize = len;
    while j > 1
        invariant
            len == name@.len(),
            j <= len,
            last_dot(name@) == last_dot(name@.take(j as int)),
        decreases j,
    {
        let c = name.get_char(j - 1);
        if c == '.' {
            let stem = name.substring_char(0, j - 1);
            proof {
                assert(name@.take(j as int)[j - 1] == '.');
                assert(last_dot(name@) == j - 1);
                assert(stem@ =~= name@.take(j - 1));
            }
            return String::from_str(stem);
        }
        proof {
            assert(name@.take(j as int).take(j - 1) =~= name@.take(j - 1));
        }
        j = j - 1;
    }
    String::from_str(name)
}

/// The vault over the configured keypair directory: a stateless
/// accessor recreated per command invocation.
pub struct KeypairStorage {
    pub config: WalletConfig,
}

impl KeypairStorage {
    pub fn new(config: WalletConfig) -> (r: Self)
        ensures
            r.config@ == config@,
    {
        KeypairStorage { config }
    }

    /// Proposes the storage path for a new keypair: a sanitized
    /// `<name>.json` under the keypair directory, or a synthesized
    /// `keypair_<unix-seconds>.json` where no name is given. This only
    /// proposes; callers must still check `keypair_exists` before any
    /// write.
    pub fn generate_keypair_path(&self, name: Option<&str>) -> (r: String)
        ensures
            match name {
                Some(n) => r@ == path_joined(self.config@.keypair_dir, sanitized(n@) + ".json"@),
                None => exists|ts: u64|
                    r@ == path_joined(
                        self.config@.keypair_dir,
                        "keypair_"@ + dec_digits(ts as int) + ".json"@,
                    ),
            },
    {
        let filename: String = match name {
            Some(n) => {
                let mut f = sanitize_filename(n);
                f.append(".json");
                f
            },
            None => {
                let ts = host::now_unix_secs();
                let mut f = String::from_str("keypair_");
                append_u64(&mut f, ts);
                f.append(".json");
                proof {
                    assert(f@ == "keypair_"@ + dec_digits(ts as int) + ".json"@);
                }
                f
            },
        };
        path_join(self.config.keypair_dir.as_str(), filename.as_str())
    }

    /// Whether anything already answers to the path on disk at this
    /// moment; used for overwrite confirmation before the signing
    /// service writes.
    pub fn keypair_exists(&self, path: &str) -> bool {
        host::path_exists(path)
    }

    /// Reads one keypair file's metadata from its name, content and
    /// modification time. It succeeds exactly when the document
    /// carries a string `public_key`; the record then holds that key,
    /// the file's stem and path, and the `created_at` fallback chain —
    /// nothing else in the document, the private-key payload included,
    /// reaches the record.
    pub fn load_keypair_info(&self, file_name: &str, content: &str, mtime: Option<u64>) -> (r:
        Result<StoredKeypair, WalletError>)
        ensures
            r is Ok <==> jsonval::json_public_key_of(content@) is Some,
            match r {
                Ok(rec) => rec.name@ == stem_of(file_name@) && rec.file_path@ == path_joined(
                    self.config@.keypair_dir,
                    file_name@,
                ) && Some(rec.public_key@) == jsonval::json_public_key_of(content@)
                    && rec.created_at == fallback_created_at(
                    jsonval::json_created_at_of(content@),
                    mtime,
                ),
                Err(e) => e matches WalletError::InvalidKeypairFormat(_),
            },
    {
        let (pk, ca) = extract_fields(content);
        let f = KeypairFileFields {
            name: file_stem(file_name),
            storage_path: path_join(self.config.keypair_dir.as_str(), file_name),
            public_key: pk,
            created_at: ca,
            mtime,
        };
        record_from_fields(f)
    }

    /// Lists the stored keypairs among the handed directory entries:
    /// exactly one record per entry the extraction accepts — a `.json`
    /// file whose readable content carries a string `public_key` —
    /// ordered newest first by the stable `spec_sort_desc`, so
    /// unreadable or ill-formed siblings are skipped without failing
    /// the listing and without dropping a well-formed file. An empty
    /// or absent directory yields an empty listing.
    pub fn list_keypairs(&self, entries: Vec<KeypairFileEntry>) -> (r: Vec<StoredKeypair>)
        ensures
            view_of_records(r@) == spec_sort_desc_v(
                records_of_entries(entries@, self.config@.keypair_dir),
            ),
            sorted_by_created_desc(r@),
            entries@.len() == 0 ==> r@.len() == 0,
    {
        broadcast use vstd::seq_lib::group_to_multiset_ensures;

        let ghost dir = self.config@.keypair_dir;
        let ghost entries0 = entries@;
        let mut entries = entries;
        let mut files: Vec<KeypairFileFields> = Vec::new();
        proof {
            assert(records_of(Seq::<KeypairFileFields>::empty()) =~= Seq::<StoredKeypair>::empty());
            assert(view_of_records(records_of(files@)) =~= Seq::<StoredKeypairV>::empty());
            assert(view_of_records(records_of(files@)) + records_of_entries(entries@, dir)
                =~= records_of_entries(entries0, dir));
        }
        while entries.len() > 0
            invariant
                dir == self.config@.keypair_dir,
                view_of_records(records_of(files@)) + records_of_entries(entries@, dir)
                    == records_of_entries(entries0, dir),
            decreases entries.len(),
        {
            let ghost pre = entries@;
            let e = entries.remove(0);
            proof {
                assert(entries@ =~= pre.skip(1));
            }
            let ghost head = (match record_of_entry(pre[0], dir) {
                Some(rv) => seq![rv],
                None => Seq::<StoredKeypairV>::empty(),
            });
            let ghost acc = view_of_records(records_of(files@));
            let KeypairFileEntry { name, content, mtime } = e;
            if has_json_ext(name.as_str()) {
                match content {
                    Some(c) => {
                        let (pk, ca) = extract_fields(c.as_str());
                        let f = KeypairFileFields {
                            name: file_stem(name.as_str()),
                            storage_path: path_join(
                                self.config.keypair_dir.as_str(),
                                name.as_str(),
                            ),
                            public_key: pk,
                            created_at: ca,
                            mtime,
                        };
                        let ghost files_pre = files@;
                        let ghost gf = f;
                        files.push(f);
                        proof {
                            lemma_records_of_push(files_pre, gf);
                            match gf.public_key {
                                Some(_) => {
                                    assert(gf.storage_path@ == path_joined(dir, pre[0].name@));
                                    assert(spec_record(gf)@ == record_of_entry(pre[0], dir).unwrap());
                                    assert(view_of_records(records_of(files@)) =~= acc + head);
                                },
                                None => {
                                    assert(records_of(files@) =~= records_of(files_pre));
                                    assert(head =~= Seq::<StoredKeypairV>::empty());
                                    assert(view_of_records(records_of(files@)) =~= acc + head);
                                },
                            }
                        }
                    },
                    None => {
                        proof {
                            assert(head =~= Seq::<StoredKeypairV>::empty());
                            assert(view_of_records(records_of(files@)) =~= acc + head);
                        }
                    },
                }
            } else {
                proof {
                    assert(head =~= Seq::<StoredKeypairV>::empty());
                    assert(view_of_records(records_of(files@)) =~= acc + head);
                }
            }
            proof {
                assert(records_of_entries(pre, dir) == head + records_of_entries(pre.skip(1), dir));
                assert((acc + head) + records_of_entries(entries@, dir) =~= acc + (head
                    + records_of_entries(entries@, dir)));
            }
        }
        proof {
            assert(records_of_entries(entries@, dir) =~= Seq::<StoredKeypairV>::empty());
            assert(view_of_records(records_of(files@)) + records_of_entries(entries@, dir)
                =~= view_of_records(records_of(files@)));
        }
        let r = assemble_records(files);
        proof {
            lemma_sort_view(records_of(files@));
            if entries0.len() == 0 {
                assert(records_of(files@) =~= Seq::<StoredKeypair>::empty());
                assert(r@.len() == r@.to_multiset().len());
            }
        }
        r
    }
}

/// Pulls the two permitted plaintext fields out of a keypair
/// document; everything else in the file, the private-key payload
/// included, is left untouched, so a record depends on nothing but
/// those fields.
fn extract_fields(content: &str) -> (r: (Option<String>, Option<u64>))
    ensures
        match r.0 {
            Some(p) => jsonval::json_public_key_of(content@) == Some(p@),
            None => jsonval::json_public_key_of(content@) is None,
        },
        r.1 == jsonval::json_created_at_of(content@),
{
    (jsonval::extract_public_key(content), jsonval::extract_created_at(content))
}

} // verus!
