//! The install manifest: its fields, its `key=value` file format and the
//! store that holds at most one manifest.
use vstd::prelude::*;
use vstd::string::StrSliceExecFns;
use crate::error::ThunderError;
use crate::text::{
    blank_in, chars_of, decimal, find_char, is_blank, is_space, lemma_find_char, parse_u32,
    parse_u32_in, push_decimal, slice_is, trim, trim_in,
};

verus! {

/// The install-time choices: owner ids, the three directories, and the
/// archive to install from, which is never persisted.
pub struct InstallConfig {
    pub uid: u32,
    pub gid: u32,
    pub package: Option<String>,
    pub config_path: String,
    pub download_path: String,
    pub mount_bind_download_path: String,
}

/// What an `InstallConfig` holds, as mathematical values.
pub struct ManifestView {
    pub uid: u32,
    pub gid: u32,
    pub package: Option<Seq<char>>,
    pub config_path: Seq<char>,
    pub download_path: Seq<char>,
    pub mount_bind_download_path: Seq<char>,
}

impl View for InstallConfig {
    type V = ManifestView;

    open spec fn view(&self) -> ManifestView {
        ManifestView {
            uid: self.uid,
            gid: self.gid,
            package: match self.package {
                Some(p) => Some(p@),
                None => None,
            },
            config_path: self.config_path@,
            download_path: self.download_path@,
            mount_bind_download_path: self.mount_bind_download_path@,
        }
    }
}

/// The manifest that a file without any known key yields.
pub open spec fn empty_manifest() -> ManifestView {
    ManifestView {
        uid: 0,
        gid: 0,
        package: None,
        config_path: Seq::empty(),
        download_path: Seq::empty(),
        mount_bind_download_path: Seq::empty(),
    }
}

/// `m` as it is persisted: everything but the archive.
pub open spec fn persisted(m: ManifestView) -> ManifestView {
    ManifestView { package: None, ..m }
}

/// One line of the file: `key=value` and a newline.
pub open spec fn entry(key: Seq<char>, value: Seq<char>) -> Seq<char> {
    key + seq!['='] + value + seq!['\n']
}

pub open spec fn uid_key() -> Seq<char> {
    seq!['u', 'i', 'd']
}

pub open spec fn gid_key() -> Seq<char> {
    seq!['g', 'i', 'd']
}

pub open spec fn config_path_key() -> Seq<char> {
    seq!['c', 'o', 'n', 'f', 'i', 'g', '_', 'p', 'a', 't', 'h']
}

pub open spec fn download_path_key() -> Seq<char> {
    seq!['d', 'o', 'w', 'n', 'l', 'o', 'a', 'd', '_', 'p', 'a', 't', 'h']
}

pub open spec fn mount_bind_download_path_key() -> Seq<char> {
    seq!['m', 'o', 'u', 'n', 't', '_', 'b', 'i', 'n', 'd', '_']
        + download_path_key()
}

/// The text of the manifest file: the five known keys, one per line.
pub open spec fn manifest_text(m: ManifestView) -> Seq<char> {
    entry(uid_key(), decimal(m.uid as nat)) + entry(gid_key(), decimal(m.gid as nat)) + entry(
        config_path_key(),
        m.config_path,
    ) + entry(download_path_key(), m.download_path) + entry(
        mount_bind_download_path_key(),
        m.mount_bind_download_path,
    )
}

/// The value of a line: all that follows its first `=`, or nothing.
pub open spec fn line_value(l: Seq<char>) -> Seq<char> {
    let k = find_char(l, '=');
    if 0 <= k < l.len() {
        l.subrange(k + 1, l.len() as int)
    } else {
        Seq::empty()
    }
}

/// The key of a line as written: what precedes its first `=`, or all of it.
pub open spec fn line_key(l: Seq<char>) -> Seq<char> {
    let k = find_char(l, '=');
    if 0 <= k < l.len() {
        l.subrange(0, k)
    } else {
        l
    }
}

/// What one line of the file does to the manifest read so far: a blank line
/// or an unknown key leaves it, and a known key, white space around it
/// ignored, sets its field. A path is the value exactly as written; an id is
/// the value without surrounding white space, and one that is not a 32-bit
/// decimal number is an error.
pub open spec fn apply_line(m: ManifestView, line: Seq<char>) -> Result<ManifestView, ThunderError> {
    let key = trim(line_key(line));
    let value = line_value(line);
    if is_blank(line) {
        Ok(m)
    } else if key == uid_key() {
        match parse_u32(trim(value)) {
            Some(n) => Ok(ManifestView { uid: n, ..m }),
            None => Err(ThunderError::ParseError),
        }
    } else if key == gid_key() {
        match parse_u32(trim(value)) {
            Some(n) => Ok(ManifestView { gid: n, ..m }),
            None => Err(ThunderError::ParseError),
        }
    } else if key == config_path_key() {
        Ok(ManifestView { config_path: value, ..m })
    } else if key == download_path_key() {
        Ok(ManifestView { download_path: value, ..m })
    } else if key == mount_bind_download_path_key() {
        Ok(ManifestView { mount_bind_download_path: value, ..m })
    } else {
        Ok(m)
    }
}

/// The lines of `s`, split at each newline, applied in order to `m`.
pub open spec fn apply_lines(m: ManifestView, s: Seq<char>) -> Result<ManifestView, ThunderError>
    decreases s.len(),
{
    if s.len() == 0 {
        Ok(m)
    } else {
        let e = find_char(s, '\n');
        match apply_line(m, s.subrange(0, e)) {
            Err(x) => Err(x),
            Ok(m2) => if 0 <= e < s.len() {
                apply_lines(m2, s.subrange(e + 1, s.len() as int))
            } else {
                Ok(m2)
            },
        }
    }
}

/// The manifest that the file text `t` holds.
pub open spec fn parse_manifest(t: Seq<char>) -> Result<ManifestView, ThunderError> {
    apply_lines(empty_manifest(), t)
}

} // verus!

verus! {

impl InstallConfig {
    /// A manifest with both ids 0, empty paths and no archive.
    pub fn empty() -> (r: InstallConfig)
        ensures
            r@ == empty_manifest(),
    {
        InstallConfig {
            uid: 0,
            gid: 0,
            package: None,
            config_path: String::new(),
            download_path: String::new(),
            mount_bind_download_path: String::new(),
        }
    }

    /// Applies the line `v[from..to]` of the file text, whose characters `v` holds.
    fn apply_line_in(&mut self, text: &str, v: &Vec<char>, from: usize, to: usize) -> (r: Result<
        (),
        ThunderError,
    >)
        requires
            v@ == text@,
            from <= to <= v.len(),
        ensures
            match apply_line(old(self)@, v@.subrange(from as int, to as int)) {
                Ok(m) => r is Ok && final(self)@ == m,
                Err(x) => r == Err::<(), ThunderError>(x),
            },
    {
        let ghost line = v@.subrange(from as int, to as int);
        if blank_in(v, from, to) {
            return Ok(());
        }
        let mut k = from;
        while k < to && v[k] != '='
            invariant
                from <= k <= to <= v.len(),
                forall|j: int| from <= j < k ==> v@[j] != '=',
            decreases to - k,
        {
            k = k + 1;
        }
        proof {
            assert forall|j: int| 0 <= j < k - from implies line[j] != '=' by {
                assert(line[j] == v@[from + j]);
            }
            lemma_find_char(line, '=', k - from);
            assert(line_key(line) =~= v@.subrange(from as int, k as int));
            if k < to {
                assert(line_value(line) =~= v@.subrange(k + 1, to as int));
            }
        }
        let vstart = if k < to { k + 1 } else { to };
        assert(line_value(line) =~= v@.subrange(vstart as int, to as int));
        let (a, b) = trim_in(v, from, k);
        let (va, vb) = trim_in(v, vstart, to);
        proof {
            reveal_strlit("uid");
            reveal_strlit("gid");
            reveal_strlit("config_path");
            reveal_strlit("download_path");
            reveal_strlit("mount_bind_download_path");
            assert("uid"@ =~= uid_key());
            assert("gid"@ =~= gid_key());
            assert("config_path"@ =~= config_path_key());
            assert("download_path"@ =~= download_path_key());
            assert("mount_bind_download_path"@ =~= mount_bind_download_path_key());
        }
        if slice_is(v, a, b, "uid") {
            match parse_u32_in(v, va, vb) {
                Some(n) => {
                    self.uid = n;
                    Ok(())
                },
                None => Err(ThunderError::ParseError),
            }
        } else if slice_is(v, a, b, "gid") {
            match parse_u32_in(v, va, vb) {
                Some(n) => {
                    self.gid = n;
                    Ok(())
                },
                None => Err(ThunderError::ParseError),
            }
        } else if slice_is(v, a, b, "config_path") {
            self.config_path = text.substring_char(vstart, to).to_owned();
            Ok(())
        } else if slice_is(v, a, b, "download_path") {
            self.download_path = text.substring_char(vstart, to).to_owned();
            Ok(())
        } else if slice_is(v, a, b, "mount_bind_download_path") {
            self.mount_bind_download_path = text.substring_char(vstart, to).to_owned();
            Ok(())
        } else {
            Ok(())
        }
    }
}

} // verus!

verus! {

/// The view of a parse result.
pub open spec fn result_view(r: Result<InstallConfig, ThunderError>) -> Result<
    ManifestView,
    ThunderError,
> {
    match r {
        Ok(c) => Ok(c@),
        Err(e) => Err(e),
    }
}

impl InstallConfig {
    /// Reads the manifest from the text of its file: line by line, each
    /// trimmed, split at its first `=`; blank lines and unknown keys are
    /// skipped, and an id that is not a 32-bit number is a `ParseError`.
    pub fn from_manifest_text(text: &str) -> (r: Result<InstallConfig, ThunderError>)
        ensures
            result_view(r) == parse_manifest(text@),
    {
        let v = chars_of(text);
        let mut cfg = InstallConfig::empty();
        let mut start: usize = 0;
        assert(v@.subrange(0, v.len() as int) =~= v@);
        while start < v.len()
            invariant
                v@ == text@,
                start <= v.len(),
                parse_manifest(v@) == apply_lines(cfg@, v@.subrange(start as int, v.len() as int)),
            decreases v.len() - start,
        {
            let ghost rest = v@.subrange(start as int, v.len() as int);
            let mut e = start;
            while e < v.len() && v[e] != '\n'
                invariant
                    start <= e <= v.len(),
                    forall|j: int| start <= j < e ==> v@[j] != '\n',
                decreases v.len() - e,
            {
                e = e + 1;
            }
            proof {
                lemma_find_char(rest, '\n', e - start);
                assert(rest.subrange(0, e - start) =~= v@.subrange(start as int, e as int));
                if e < v.len() {
                    assert(rest.subrange(e - start + 1, rest.len() as int) =~= v@.subrange(
                        e + 1,
                        v.len() as int,
                    ));
                }
            }
            match cfg.apply_line_in(text, &v, start, e) {
                Ok(()) => {},
                Err(x) => {
                    return Err(x);
                },
            }
            if e < v.len() {
                start = e + 1;
            } else {
                start = e;
                assert(v@.subrange(start as int, v.len() as int) =~= Seq::<char>::empty());
            }
        }
        assert(v@.subrange(start as int, v.len() as int) =~= Seq::<char>::empty());
        Ok(cfg)
    }

    /// The text of the manifest file for this configuration: `uid`, `gid`
    /// and the three paths, one `key=value` line each.
    pub fn to_manifest_text(&self) -> (r: String)
        ensures
            r@ == manifest_text(self@),
    {
        proof {
            reveal_strlit("uid=");
            reveal_strlit("\ngid=");
            reveal_strlit("\nconfig_path=");
            reveal_strlit("\ndownload_path=");
            reveal_strlit("\nmount_bind_download_path=");
            reveal_strlit("\n");
        }
        let mut out = String::new();
        out.append("uid=");
        push_decimal(&mut out, self.uid);
        out.append("\ngid=");
        push_decimal(&mut out, self.gid);
        out.append("\nconfig_path=");
        out.append(self.config_path.as_str());
        out.append("\ndownload_path=");
        out.append(self.download_path.as_str());
        out.append("\nmount_bind_download_path=");
        out.append(self.mount_bind_download_path.as_str());
        out.append("\n");
        assert(out@ =~= manifest_text(self@));
        out
    }
}

} // verus!

verus! {

/// The manifest file at its fixed place: its text, or `None` while it does
/// not exist.
pub struct ManifestStore {
    pub contents: Option<String>,
}

impl View for ManifestStore {
    type V = Option<Seq<char>>;

    open spec fn view(&self) -> Option<Seq<char>> {
        match self.contents {
            Some(t) => Some(t@),
            None => None,
        }
    }
}

/// The file and the outcome after writing `m` to the file `f`: refused when a
/// manifest is already there, else the file holds `m`'s text.
pub open spec fn after_write(f: Option<Seq<char>>, m: ManifestView) -> (
    Option<Seq<char>>,
    Result<(), ThunderError>,
) {
    match f {
        Some(_) => (f, Err(ThunderError::AlreadyInstalled)),
        None => (Some(manifest_text(m)), Ok(())),
    }
}

/// What reading the file `f` yields.
pub open spec fn read_outcome(f: Option<Seq<char>>) -> Result<ManifestView, ThunderError> {
    match f {
        Some(t) => parse_manifest(t),
        None => Err(ThunderError::NotInstalled),
    }
}

/// A path that a manifest line can hold: one without a newline.
pub open spec fn fits_on_a_line(p: Seq<char>) -> bool {
    forall|i: int| 0 <= i < p.len() ==> p[i] != '\n'
}

/// A run of characters with no white space at either end stays as it is
/// when trimmed.
proof fn lemma_trim_unchanged(s: Seq<char>)
    requires
        s.len() == 0 || (!is_space(s[0]) && !is_space(s.last())),
    ensures
        trim(s) == s,
{
    crate::text::lemma_trim_end(s, s.len() as int);
    assert(s.subrange(0, s.len() as int) =~= s);
    crate::text::lemma_trim_start(s, 0);
}

impl ManifestStore {
    /// The store over a file whose text is `contents`, or over a missing file.
    pub fn new(contents: Option<String>) -> (r: ManifestStore)
        ensures
            r.contents == contents,
    {
        ManifestStore { contents }
    }

    pub fn is_installed(&self) -> (r: bool)
        ensures
            r == (self@ is Some),
    {
        self.contents.is_some()
    }
}

impl InstallConfig {
    /// Writes this manifest into `store`, unless one is already there.
    pub fn write_to_file(&self, store: &mut ManifestStore) -> (r: Result<(), ThunderError>)
        ensures
            (final(store)@, r) == after_write(old(store)@, self@),
    {
        if store.contents.is_some() {
            return Err(ThunderError::AlreadyInstalled);
        }
        store.contents = Some(self.to_manifest_text());
        Ok(())
    }

    /// Reads the manifest in `store`; its archive is always `None`.
    pub fn read_from_file(store: &ManifestStore) -> (r: Result<InstallConfig, ThunderError>)
        ensures
            result_view(r) == read_outcome(store@),
    {
        match &store.contents {
            Some(t) => InstallConfig::from_manifest_text(t.as_str()),
            None => Err(ThunderError::NotInstalled),
        }
    }

    /// Removes the manifest from `store`, whether or not one is there.
    pub fn remove_file(self, store: &mut ManifestStore) -> (r: Result<(), ThunderError>)
        ensures
            final(store)@ == after_remove(old(store)@),
            r is Ok,
    {
        store.contents = None;
        Ok(())
    }
}

/// The five keys are made of lower-case letters and `_`.
proof fn lemma_plain_key(k: Seq<char>)
    requires
        k == uid_key() || k == gid_key() || k == config_path_key() || k == download_path_key()
            || k == mount_bind_download_path_key(),
    ensures
        k.len() > 0,
        forall|i: int| 0 <= i < k.len() ==> k[i] != '=' && !is_space(k[i]) && k[i] != '\n',
{
    assert forall|i: int| 0 <= i < k.len() implies ('a' <= #[trigger] k[i] <= 'z' || k[i] == '_') by {
        if k == mount_bind_download_path_key() {
            if i >= 11 {
                assert(k[i] == download_path_key()[i - 11]);
            }
        }
    }
}

proof fn lemma_entry_line(key: Seq<char>, value: Seq<char>)
    requires
        key.len() > 0,
        forall|i: int| 0 <= i < key.len() ==> key[i] != '=' && !is_space(key[i]),
    ensures
        !is_blank(key + seq!['='] + value),
        trim(line_key(key + seq!['='] + value)) == key,
        line_value(key + seq!['='] + value) == value,
{
    let l = key + seq!['='] + value;
    assert(l[0] == key[0]);
    lemma_find_char(l, '=', key.len() as int);
    assert(l.subrange(0, key.len() as int) =~= key);
    assert(l.subrange(key.len() + 1int, l.len() as int) =~= value);
    lemma_trim_unchanged(key);
}

proof fn lemma_apply_entry(m: ManifestView, key: Seq<char>, value: Seq<char>, rest: Seq<char>)
    requires
        forall|i: int| 0 <= i < key.len() ==> key[i] != '\n',
        fits_on_a_line(value),
    ensures
        apply_lines(m, entry(key, value) + rest) == match apply_line(m, key + seq!['='] + value) {
            Ok(m2) => apply_lines(m2, rest),
            Err(x) => Err(x),
        },
{
    let s = entry(key, value) + rest;
    let n: int = key.len() + 1 + value.len() as int;
    assert forall|j: int| 0 <= j < n implies s[j] != '\n' by {
        if j < key.len() {
            assert(s[j] == key[j]);
        } else if j > key.len() {
            assert(s[j] == value[j - key.len() - 1]);
        }
    }
    lemma_find_char(s, '\n', n);
    assert(s.subrange(0, n) =~= key + seq!['='] + value);
    assert(s.subrange(n + 1, s.len() as int) =~= rest);
}

proof fn lemma_decimal_fits(n: nat)
    ensures
        fits_on_a_line(decimal(n)),
        trim(decimal(n)) == decimal(n),
{
    crate::text::lemma_decimal(n);
    assert forall|i: int| 0 <= i < decimal(n).len() implies decimal(n)[i] != '\n' by {
        assert(crate::text::is_digit(decimal(n)[i]));
    }
    assert(crate::text::is_digit(decimal(n)[0]));
    assert(crate::text::is_digit(decimal(n)[decimal(n).len() - 1]));
    lemma_trim_unchanged(decimal(n));
}

/// Writing a manifest and reading it back gives the same manifest, but for
/// the archive, which is not persisted; for paths without a newline, which
/// the file format cannot hold.
#[verifier::rlimit(40)]
pub proof fn lemma_write_then_read(f: Option<Seq<char>>, m: ManifestView)
    requires
        fits_on_a_line(m.config_path),
        fits_on_a_line(m.download_path),
        fits_on_a_line(m.mount_bind_download_path),
        after_write(f, m).1 is Ok,
    ensures
        read_outcome(after_write(f, m).0) == Ok::<ManifestView, ThunderError>(persisted(m)),
{
    let e1 = entry(uid_key(), decimal(m.uid as nat));
    let e2 = entry(gid_key(), decimal(m.gid as nat));
    let e3 = entry(config_path_key(), m.config_path);
    let e4 = entry(download_path_key(), m.download_path);
    let e5 = entry(mount_bind_download_path_key(), m.mount_bind_download_path);
    let empty = Seq::<char>::empty();
    assert(manifest_text(m) =~= e1 + (e2 + (e3 + (e4 + (e5 + empty)))));
    lemma_decimal_fits(m.uid as nat);
    lemma_decimal_fits(m.gid as nat);
    crate::text::lemma_parse_decimal(m.uid);
    crate::text::lemma_parse_decimal(m.gid);
    lemma_plain_key(uid_key());
    lemma_plain_key(gid_key());
    lemma_plain_key(config_path_key());
    lemma_plain_key(download_path_key());
    lemma_plain_key(mount_bind_download_path_key());
    lemma_entry_line(uid_key(), decimal(m.uid as nat));
    lemma_entry_line(gid_key(), decimal(m.gid as nat));
    lemma_entry_line(config_path_key(), m.config_path);
    lemma_entry_line(download_path_key(), m.download_path);
    lemma_entry_line(mount_bind_download_path_key(), m.mount_bind_download_path);
    assert(gid_key()[0] != uid_key()[0]);
    assert(config_path_key().len() != uid_key().len());
    assert(config_path_key().len() != gid_key().len());
    assert(download_path_key().len() != uid_key().len());
    assert(download_path_key().len() != gid_key().len());
    assert(download_path_key().len() != config_path_key().len());
    assert(mount_bind_download_path_key().len() != uid_key().len());
    assert(mount_bind_download_path_key().len() != gid_key().len());
    assert(mount_bind_download_path_key().len() != config_path_key().len());
    assert(mount_bind_download_path_key().len() != download_path_key().len());
    let m0 = empty_manifest();
    let m1 = ManifestView { uid: m.uid, ..m0 };
    let m2 = ManifestView { gid: m.gid, ..m1 };
    let m3 = ManifestView { config_path: m.config_path, ..m2 };
    let m4 = ManifestView { download_path: m.download_path, ..m3 };
    let m5 = ManifestView { mount_bind_download_path: m.mount_bind_download_path, ..m4 };
    lemma_apply_entry(m0, uid_key(), decimal(m.uid as nat), e2 + (e3 + (e4 + (e5 + empty))));
    lemma_apply_entry(m1, gid_key(), decimal(m.gid as nat), e3 + (e4 + (e5 + empty)));
    lemma_apply_entry(m2, config_path_key(), m.config_path, e4 + (e5 + empty));
    lemma_apply_entry(m3, download_path_key(), m.download_path, e5 + empty);
    lemma_apply_entry(m4, mount_bind_download_path_key(), m.mount_bind_download_path, empty);
    assert(m5 == persisted(m));
}

/// Removing the manifest twice succeeds, and leaves no manifest.
pub proof fn lemma_remove_twice(f: Option<Seq<char>>)
    ensures
        after_remove(after_remove(f)) is None,
{
}

/// The file after the manifest is removed from `f`.
pub open spec fn after_remove(f: Option<Seq<char>>) -> Option<Seq<char>> {
    None
}

/// Once a write has succeeded, a second write, of any manifest, is refused
/// as `AlreadyInstalled` and leaves the first manifest in place.
pub proof fn lemma_second_write_refused(f: Option<Seq<char>>, m1: ManifestView, m2: ManifestView)
    requires
        after_write(f, m1).1 is Ok,
    ensures
        after_write(after_write(f, m1).0, m2) == (
            Some(manifest_text(m1)),
            Err::<(), ThunderError>(ThunderError::AlreadyInstalled),
        ),
{
}

} // verus!

verus! {

/// An absolute path: one that starts at the root.
pub open spec fn is_absolute(p: Seq<char>) -> bool {
    p.len() > 0 && p[0] == '/'
}

/// The three directories of a manifest are absolute and distinct.
pub open spec fn valid_paths(m: ManifestView) -> bool {
    &&& is_absolute(m.config_path)
    &&& is_absolute(m.download_path)
    &&& is_absolute(m.mount_bind_download_path)
    &&& m.config_path != m.download_path
    &&& m.config_path != m.mount_bind_download_path
    &&& m.download_path != m.mount_bind_download_path
}

fn absolute(p: &String) -> (r: bool)
    ensures
        r == is_absolute(p@),
{
    let s = p.as_str();
    if s.unicode_len() == 0 {
        return false;
    }
    s.get_char(0) == '/'
}

impl InstallConfig {
    /// Whether the three directories are absolute and distinct, as install
    /// needs them.
    pub fn has_valid_paths(&self) -> (r: bool)
        ensures
            r == valid_paths(self@),
    {
        absolute(&self.config_path) && absolute(&self.download_path) && absolute(
            &self.mount_bind_download_path,
        ) && self.config_path != self.download_path && self.config_path
            != self.mount_bind_download_path && self.download_path != self.mount_bind_download_path
    }
}

} // verus!
