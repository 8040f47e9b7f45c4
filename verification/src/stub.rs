//! Putting a stub in the place of a package that is not needed: a manifest
//! without what the stub cannot back, one empty source file, and checksums
//! for the two.

use vstd::prelude::*;
use crate::checksum::{digest_hex, file_views, sha256, ChecksumManifest, FileDigest, FileView};
use crate::error::{Error, ErrorView};
use crate::text::{hex, str_views};
use vstd::utf8::encode_utf8;

verus! {

/// The map of `toml`, of which a table is one. Nothing is known of what is
/// inside but what the functions below say.
#[verifier::external_type_specification]
#[verifier::external_body]
#[verifier::reject_recursive_types(K)]
#[verifier::reject_recursive_types(V)]
pub struct ExTomlMap<K, V>(toml::map::Map<K, V>);

/// A value of `toml`. It is only carried along.
#[verifier::external_type_specification]
#[verifier::external_body]
pub struct ExTomlValue(toml::Value);

/// Whether `toml` reads a text as a table.
pub uninterp spec fn toml_parses(text: Seq<char>) -> bool;

/// What a table holds at its top level: each key with its value, the value
/// as TOML text.
pub uninterp spec fn table_entries(table: toml::Table) -> Map<Seq<char>, Seq<char>>;

/// What the table under the key `package` holds, each key with its value as
/// TOML text; nothing where there is no such key or its value is no table.
pub uninterp spec fn package_entries(table: toml::Table) -> Map<Seq<char>, Seq<char>>;

/// What `toml` writes for a table: the table as TOML, or nothing where it
/// cannot write the table.
pub uninterp spec fn table_text(table: toml::Table) -> Option<Seq<char>>;

/// The key of a manifest under which the package is described.
pub const MANIFEST_KEY_PACKAGE: &'static str = "package";

/// What `toml` reads at the top level of a text that it reads as a table:
/// each key with its value, the value as TOML text.
pub uninterp spec fn toml_entries(text: Seq<char>) -> Map<Seq<char>, Seq<char>>;

/// What `toml` reads under the key `package` of a text that it reads as a
/// table, each key with its value as TOML text; nothing where there is no
/// such key or its value is no table.
pub uninterp spec fn toml_package_entries(text: Seq<char>) -> Map<Seq<char>, Seq<char>>;

/// Calls `toml::from_str` for a table. Whether it reads the text is named,
/// and so is what the table then holds, at the top and under `package`.
#[verifier::external_body]
fn parse_table(text: &str) -> (r: Option<toml::Table>)
    ensures
        r is Some == toml_parses(text@),
        r is Some ==> table_entries(r->0) == toml_entries(text@),
        r is Some ==> package_entries(r->0) == toml_package_entries(text@),
{
    toml::from_str::<toml::Table>(text).ok()
}

/// Calls `Map::remove` on the table. The entry of `key` goes and every
/// other entry stays; the table under `package` stays too, unless `package`
/// is the key that goes.
#[verifier::external_body]
fn remove_key(table: &mut toml::Table, key: &str)
    ensures
        table_entries(*final(table)) == table_entries(*old(table)).remove(key@),
        package_entries(*final(table)) == if key@ == MANIFEST_KEY_PACKAGE@ {
            Map::<Seq<char>, Seq<char>>::empty()
        } else {
            package_entries(*old(table))
        },
{
    table.remove(key);
}

/// Calls `Map::remove` on the table under `outer`, where there is one; the
/// caller hands `package` in as `outer`. There the entry of `key` goes and
/// every other entry stays. At the top level the keys stay, and so does the
/// value of every key but `package`.
#[verifier::external_body]
fn remove_package_key(table: &mut toml::Table, outer: &str, key: &str)
    requires
        outer@ == MANIFEST_KEY_PACKAGE@,
    ensures
        package_entries(*final(table)) == package_entries(*old(table)).remove(key@),
        table_entries(*final(table)).dom() == table_entries(*old(table)).dom(),
        forall|k: Seq<char>| k != MANIFEST_KEY_PACKAGE@ && table_entries(*old(table)).dom().contains(k) ==> #[trigger] table_entries(*final(table))[k] == table_entries(*old(table))[k],
{
    if let Some(toml::Value::Table(package)) = table.get_mut(outer) {
        package.remove(key);
    }
}

/// Calls `toml::to_string` on the table. The result is named: the text, or
/// nothing where the call fails.
#[verifier::external_body]
fn render_table(table: &toml::Table) -> (r: Option<String>)
    ensures
        r is Some == table_text(*table) is Some,
        r is Some ==> table_text(*table) == Some(r->0@),
{
    toml::to_string(table).ok()
}


/// The name of a package's manifest.
pub const CARGO_TOML: &'static str = "Cargo.toml";

/// The one source file of a stub.
pub const STUB_SOURCE: &'static str = "src/lib.rs";

/// The keys of a manifest that declare targets, in the order in which
/// they are taken out. A stub holds none of the files that they point to.
pub open spec fn unwanted_manifest_key_list() -> Seq<Seq<char>> {
    seq!["bin"@, "example"@, "test"@, "bench"@]
}

/// The keys of the package table that make sense only with the native parts
/// of the package, which a stub lacks, in the order in which they are taken
/// out.
pub open spec fn unwanted_package_key_list() -> Seq<Seq<char>> {
    seq!["links"@, "build"@]
}

/// The keys of a manifest that a stub does without.
pub open spec fn unwanted_manifest_key_set() -> Set<Seq<char>> {
    unwanted_manifest_key_list().to_set()
}

/// The keys of the package table that a stub does without.
pub open spec fn unwanted_package_key_set() -> Set<Seq<char>> {
    unwanted_package_key_list().to_set()
}

/// The keys of a manifest that declare targets. They are removed because
/// the tool that reads the manifest would look for their files.
pub fn unwanted_manifest_keys() -> (r: Vec<&'static str>)
    ensures
        str_views(r@) == unwanted_manifest_key_list(),
        str_views(r@).to_set() == unwanted_manifest_key_set(),
{
    let r: Vec<&'static str> = vec!["bin", "example", "test", "bench"];
    proof {
        assert(str_views(r@) =~= unwanted_manifest_key_list());
    }
    r
}

/// The keys of the package table that the tool that reads the manifest
/// checks too.
pub fn unwanted_package_keys() -> (r: Vec<&'static str>)
    ensures
        str_views(r@) == unwanted_package_key_list(),
        str_views(r@).to_set() == unwanted_package_key_set(),
{
    let r: Vec<&'static str> = vec!["links", "build"];
    proof {
        assert(str_views(r@) =~= unwanted_package_key_list());
    }
    r
}

/// What stripping makes of what a manifest held at its top, `top`, and
/// under `package`, `package`. At the top level the unwanted keys go, the
/// other keys stay, and each but `package` keeps its value. In the package
/// table the unwanted keys go and every other entry stays.
pub open spec fn stripped_entries(top: Map<Seq<char>, Seq<char>>, package: Map<Seq<char>, Seq<char>>, after: toml::Table) -> bool {
    &&& table_entries(after).dom() == top.dom().difference(unwanted_manifest_key_set())
    &&& forall|k: Seq<char>| k != MANIFEST_KEY_PACKAGE@ && table_entries(after).dom().contains(k) ==> #[trigger] table_entries(after)[k] == top[k]
    &&& package_entries(after) == package.remove_keys(unwanted_package_key_set())
}

/// Whether `after` is the table `before` without what a stub cannot back.
pub open spec fn stripped(before: toml::Table, after: toml::Table) -> bool {
    stripped_entries(table_entries(before), package_entries(before), after)
}

/// Whether `after` is what `toml` reads from `text`, without what a stub
/// cannot back.
pub open spec fn stub_of_text(text: Seq<char>, after: toml::Table) -> bool {
    stripped_entries(toml_entries(text), toml_package_entries(text), after)
}

/// The first `n` of `keys`, as a set.
pub open spec fn first_keys(keys: Seq<Seq<char>>, n: int) -> Set<Seq<char>> {
    keys.take(n).to_set()
}

/// One key more among the first keys.
proof fn lemma_first_keys_step(keys: Seq<Seq<char>>, n: int)
    requires
        0 <= n < keys.len(),
    ensures
        first_keys(keys, n + 1) == first_keys(keys, n).insert(keys[n]),
        first_keys(keys, 0) == Set::<Seq<char>>::empty(),
{
    let more = keys.take(n + 1);
    let fewer = keys.take(n);
    assert forall|k: Seq<char>| more.to_set().contains(k) <==> fewer.to_set().insert(keys[n]).contains(k) by {
        if more.contains(k) {
            let i = choose|i: int| 0 <= i < more.len() && more[i] == k;
            if i < n {
                assert(fewer[i] == k);
            }
        }
        if fewer.contains(k) {
            let i = choose|i: int| 0 <= i < fewer.len() && fewer[i] == k;
            assert(more[i] == k);
        }
        if k == keys[n] {
            assert(more[n] == k);
        }
    }
    assert(more.to_set() =~= fewer.to_set().insert(keys[n]));
    assert(keys.take(0).to_set() =~= Set::<Seq<char>>::empty());
}

/// Takes each of `keys` out of the top level of the table.
fn remove_top_keys(table: &mut toml::Table, keys: &Vec<&'static str>)
    requires
        forall|i: int| 0 <= i < keys.len() ==> (#[trigger] keys[i])@ != MANIFEST_KEY_PACKAGE@,
    ensures
        table_entries(*final(table)) == table_entries(*old(table)).remove_keys(str_views(keys@).to_set()),
        package_entries(*final(table)) == package_entries(*old(table)),
{
    let ghost start = table_entries(*table);
    let ghost ks = str_views(keys@);
    let mut i: usize = 0;
    proof {
        assert(ks.take(0).to_set() =~= Set::<Seq<char>>::empty());
        assert(start.remove_keys(first_keys(ks, 0)) =~= start);
    }
    while i < keys.len()
        invariant
            0 <= i <= keys.len(),
            ks == str_views(keys@),
            forall|k: int| 0 <= k < keys.len() ==> (#[trigger] keys[k])@ != MANIFEST_KEY_PACKAGE@,
            table_entries(*table) == start.remove_keys(first_keys(ks, i as int)),
            package_entries(*table) == package_entries(*old(table)),
        decreases keys.len() - i,
    {
        proof {
            lemma_first_keys_step(ks, i as int);
            assert(ks[i as int] == keys[i as int]@);
        }
        remove_key(table, keys[i]);
        proof {
            assert(start.remove_keys(first_keys(ks, i as int)).remove(ks[i as int]) =~= start.remove_keys(first_keys(ks, i + 1)));
        }
        i = i + 1;
    }
    proof {
        assert(ks.take(keys.len() as int) =~= ks);
    }
}

/// Takes each of `keys` out of the table under `package`.
fn remove_package_keys(table: &mut toml::Table, keys: &Vec<&'static str>)
    ensures
        package_entries(*final(table)) == package_entries(*old(table)).remove_keys(str_views(keys@).to_set()),
        table_entries(*final(table)).dom() == table_entries(*old(table)).dom(),
        forall|k: Seq<char>| k != MANIFEST_KEY_PACKAGE@ && table_entries(*old(table)).dom().contains(k) ==> #[trigger] table_entries(*final(table))[k] == table_entries(*old(table))[k],
{
    let ghost start = package_entries(*table);
    let ghost ks = str_views(keys@);
    let mut i: usize = 0;
    proof {
        assert(ks.take(0).to_set() =~= Set::<Seq<char>>::empty());
        assert(start.remove_keys(first_keys(ks, 0)) =~= start);
    }
    while i < keys.len()
        invariant
            0 <= i <= keys.len(),
            ks == str_views(keys@),
            package_entries(*table) == start.remove_keys(first_keys(ks, i as int)),
            table_entries(*table).dom() == table_entries(*old(table)).dom(),
            forall|k: Seq<char>| k != MANIFEST_KEY_PACKAGE@ && table_entries(*old(table)).dom().contains(k) ==> #[trigger] table_entries(*table)[k] == table_entries(*old(table))[k],
        decreases keys.len() - i,
    {
        proof {
            lemma_first_keys_step(ks, i as int);
            assert(ks[i as int] == keys[i as int]@);
        }
        remove_package_key(table, MANIFEST_KEY_PACKAGE, keys[i]);
        proof {
            assert(start.remove_keys(first_keys(ks, i as int)).remove(ks[i as int]) =~= start.remove_keys(first_keys(ks, i + 1)));
        }
        i = i + 1;
    }
    proof {
        assert(ks.take(keys.len() as int) =~= ks);
    }
}

/// Takes out of a manifest what a stub cannot back.
pub fn strip_manifest(table: &mut toml::Table)
    ensures
        stripped(*old(table), *final(table)),
{
    let top = unwanted_manifest_keys();
    let inner = unwanted_package_keys();
    proof {
        reveal_strlit("package");
        reveal_strlit("bin");
        reveal_strlit("example");
        reveal_strlit("test");
        reveal_strlit("bench");
        assert("package"@.len() == 7);
        assert("bin"@.len() == 3);
        assert("test"@.len() == 4);
        assert("bench"@.len() == 5);
        assert("example"@[0] == 'e');
        assert("package"@[0] == 'p');
        let list = unwanted_manifest_key_list();
        assert forall|i: int| 0 <= i < top.len() implies (#[trigger] top[i])@ != MANIFEST_KEY_PACKAGE@ by {
            assert(top[i]@ == str_views(top@)[i]);
            assert(list.len() == 4);
            assert(list[0] == "bin"@ && list[1] == "example"@ && list[2] == "test"@ && list[3] == "bench"@);
            assert(MANIFEST_KEY_PACKAGE@ == "package"@);
            assert("bin"@ != "package"@ && "test"@ != "package"@ && "bench"@ != "package"@);
            assert("example"@ != "package"@);
        }
    }
    remove_top_keys(table, &top);
    let ghost middle = *table;
    remove_package_keys(table, &inner);
    proof {
        let before = table_entries(*old(table));
        assert(table_entries(middle) == before.remove_keys(unwanted_manifest_key_set()));
        assert(table_entries(*table).dom() =~= before.dom().difference(unwanted_manifest_key_set()));
        assert forall|k: Seq<char>| k != MANIFEST_KEY_PACKAGE@ && table_entries(*table).dom().contains(k) implies #[trigger] table_entries(*table)[k] == before[k] by {
            assert(table_entries(middle).dom().contains(k));
            assert(table_entries(middle)[k] == before[k]);
        }
    }
}

/// A file of a stub: its path inside the package, and what it holds.
#[derive(Debug, Clone)]
pub struct StubFile {
    pub path: String,
    pub contents: String,
}

/// A [`StubFile`] with the texts of its strings.
pub struct StubFileView {
    pub path: Seq<char>,
    pub contents: Seq<char>,
}

impl View for StubFile {
    type V = StubFileView;

    open spec fn view(&self) -> StubFileView {
        StubFileView { path: self.path@, contents: self.contents@ }
    }
}

/// The files of a stub whose manifest holds `manifest`: the manifest, and
/// one source file, which is empty.
pub open spec fn stub_of(manifest: Seq<char>) -> Seq<StubFileView> {
    seq![
        StubFileView { path: CARGO_TOML@, contents: manifest },
        StubFileView { path: STUB_SOURCE@, contents: Seq::<char>::empty() },
    ]
}

/// The checksum entry of a file: its path, and the digest of its content
/// in hexadecimal.
pub open spec fn entry_of(file: StubFileView) -> FileView {
    FileView { path: file.path, digest: hex(sha256(encode_utf8(file.contents))) }
}

/// The checksum entries of the files of a stub whose manifest holds
/// `manifest`.
pub open spec fn stub_entries(manifest: Seq<char>) -> Seq<FileView> {
    seq![entry_of(stub_of(manifest)[0]), entry_of(stub_of(manifest)[1])]
}

/// Whether `r` is what `toml` writes for `table`: its text, or nothing where
/// the table cannot be written.
pub open spec fn written(table: toml::Table, r: Option<String>) -> bool {
    match r {
        Some(text) => table_text(table) == Some(text@),
        None => table_text(table) is None,
    }
}

/// Writes out the manifest of a stub for a package whose manifest is
/// `table`: what `toml` writes for the table without what a stub cannot
/// back. Nothing comes back exactly where what is left cannot be written.
pub fn write_stub_manifest(table: toml::Table) -> (r: Option<String>)
    ensures
        exists|after: toml::Table| #[trigger] stripped(table, after) && written(after, r),
{
    let mut left = table;
    strip_manifest(&mut left);
    let r = render_table(&left);
    proof {
        assert(stripped(table, left) && written(left, r));
    }
    r
}

/// The manifest of the stub of a package whose manifest holds `text`: the
/// same manifest without what a stub cannot back. It fails where the text
/// is no TOML table, or where what is left of it cannot be written out.
pub fn stub_manifest(text: &str) -> (r: Result<String, Error>)
    ensures
        !toml_parses(text@) ==> r is Err,
        r is Err ==> r->Err_0@ == ErrorView::InvalidManifest(text@),
        toml_parses(text@) ==> exists|after: toml::Table| #[trigger] stub_of_text(text@, after) && written(
            after,
            match r {
                Ok(out) => Some(out),
                Err(_) => None,
            },
        ),
{
    let table = match parse_table(text) {
        Some(table) => table,
        None => {
            return Err(Error::InvalidManifest(String::from_str(text)));
        },
    };
    let out = write_stub_manifest(table);
    proof {
        let after = choose|after: toml::Table| #[trigger] stripped(table, after) && written(after, out);
        assert(stub_of_text(text@, after));
    }
    match out {
        Some(out) => Ok(out),
        None => Err(Error::InvalidManifest(String::from_str(text))),
    }
}

/// The files of a stub whose manifest holds `manifest`.
pub fn stub_files(manifest: String) -> (r: Vec<StubFile>)
    ensures
        r.len() == 2,
        r[0]@ == stub_of(manifest@)[0],
        r[1]@ == stub_of(manifest@)[1],
{
    let mut out: Vec<StubFile> = Vec::new();
    out.push(StubFile { path: String::from_str(CARGO_TOML), contents: manifest });
    out.push(StubFile { path: String::from_str(STUB_SOURCE), contents: String::new() });
    out
}

/// Makes the checksums those of a stub whose manifest holds `manifest`:
/// one entry for the manifest and one for the empty source file, each with
/// the digest of its content. The digest of the package stays as it was.
pub fn stub_checksums(checksums: &mut ChecksumManifest, manifest: &str)
    ensures
        file_views(final(checksums).files@) == stub_entries(manifest@),
        final(checksums).package == old(checksums).package,
        final(checksums).wf(),
{
    let mut files: Vec<FileDigest> = Vec::new();
    let none = String::new();
    files.push(FileDigest { path: String::from_str(CARGO_TOML), digest: digest_hex(manifest.as_bytes()) });
    files.push(FileDigest { path: String::from_str(STUB_SOURCE), digest: digest_hex(none.as_str().as_bytes()) });
    proof {
        assert(file_views(files@) =~= stub_entries(manifest@));
        reveal_strlit("Cargo.toml");
        reveal_strlit("src/lib.rs");
        assert(CARGO_TOML@.len() == 10);
        assert(STUB_SOURCE@[0] == 's');
        assert(CARGO_TOML@[0] == 'C');
    }
    checksums.files = files;
}

/// A stub holds one source file, which is empty, and its checksums hold one
/// entry for that file, with the digest of no bytes at all.
pub proof fn lemma_stub_source(manifest: Seq<char>)
    ensures
        stub_of(manifest).len() == 2,
        stub_of(manifest)[0].path == CARGO_TOML@,
        stub_of(manifest)[1].path == STUB_SOURCE@,
        stub_of(manifest)[1].contents.len() == 0,
        stub_entries(manifest).len() == 2,
        stub_entries(manifest)[1].path == STUB_SOURCE@,
        stub_entries(manifest)[1].digest == hex(sha256(Seq::<u8>::empty())),
        stub_entries(manifest)[0].path != STUB_SOURCE@,
{
    reveal_strlit("Cargo.toml");
    reveal_strlit("src/lib.rs");
    assert(CARGO_TOML@[0] == 'C');
    assert(STUB_SOURCE@[0] == 's');
    assert(encode_utf8(Seq::<char>::empty()) =~= Seq::<u8>::empty());
}

/// The checksums of a stub hold one entry for each of its files and no
/// other. Where the digest of the manifest is not the digest of no bytes at
/// all, as it is for every manifest that holds anything unless two digests
/// coincide, exactly one entry has the digest of no bytes, and it is the
/// entry of the source file.
pub proof fn lemma_one_empty_digest(manifest: Seq<char>)
    requires
        stub_entries(manifest)[0].digest != hex(sha256(Seq::<u8>::empty())),
    ensures
        stub_entries(manifest).len() == stub_of(manifest).len(),
        forall|i: int| 0 <= i < stub_entries(manifest).len() ==> (#[trigger] stub_entries(manifest)[i]).path == stub_of(manifest)[i].path,
        forall|i: int| 0 <= i < stub_entries(manifest).len() ==> ((#[trigger] stub_entries(manifest)[i]).digest == hex(sha256(Seq::<u8>::empty())) <==> i == 1),
        stub_entries(manifest)[1].path == STUB_SOURCE@,
{
    lemma_stub_source(manifest);
}

} // verus!
