//! The assets that a production build ships, and the names that it gives them.

use vstd::prelude::*;

use crate::path::{
    body_parts, extension_of, file_name, join_parts, join_path, join_text, joined, last_dot,
    lemma_parent_text, parent, parent_parts, parent_text, lemma_parts_of_join,
    lemma_parts_of_spelled, lemma_parts_well_formed, name_of, parts, parts_of, parts_view, pieces,
    proper_name, spelled, split_name, stem_of, well_formed, Part,
};
use crate::pipeline::dev::copy_bytes;
use crate::plan::opt_text;
use crate::text::{contains, copy_str, ends_with, from_chars, has_substring, has_suffix, to_chars};

verus! {

/// A file that is shipped beside an asset, under its own name.
#[derive(Debug)]
pub struct CompanionFile {
    /// Its name, without any directory.
    pub filename: String,
    /// Its content.
    pub bytes: Vec<u8>,
}

impl View for CompanionFile {
    type V = (Seq<char>, Seq<u8>);

    open spec fn view(&self) -> (Seq<char>, Seq<u8>) {
        (self.filename@, self.bytes@)
    }
}

/// What a list of companions says.
pub open spec fn companions_view(list: Seq<CompanionFile>) -> Seq<(Seq<char>, Seq<u8>)> {
    list.map_values(|c: CompanionFile| c@)
}

/// An asset to ship.
#[derive(Debug)]
pub struct EmittedAsset {
    /// Its content.
    pub bytes: Vec<u8>,
    /// Where it goes below the dist root; its hash is put before the extension.
    pub relative_path: String,
    /// The URL by which pages name it, if they do.
    pub stable_url: Option<String>,
    /// The files that are shipped beside it.
    pub companions: Vec<CompanionFile>,
}

/// What an [`EmittedAsset`] says.
pub struct Asset {
    pub bytes: Seq<u8>,
    pub relative_path: Seq<char>,
    pub stable_url: Option<Seq<char>>,
    pub companions: Seq<(Seq<char>, Seq<u8>)>,
}

impl View for EmittedAsset {
    type V = Asset;

    open spec fn view(&self) -> Asset {
        Asset {
            bytes: self.bytes@,
            relative_path: self.relative_path@,
            stable_url: opt_text(self.stable_url),
            companions: companions_view(self.companions@),
        }
    }
}

/// Copies a list of companions.
pub fn copy_companions(list: &Vec<CompanionFile>) -> (r: Vec<CompanionFile>)
    ensures
        companions_view(r@) == companions_view(list@),
{
    let mut out: Vec<CompanionFile> = Vec::new();
    let mut i: usize = 0;
    while i < list.len()
        invariant
            i <= list@.len(),
            companions_view(out@) == companions_view(list@).take(i as int),
        decreases list@.len() - i,
    {
        let ghost before = companions_view(out@);
        out.push(
            CompanionFile {
                filename: list[i].filename.clone(),
                bytes: copy_bytes(&list[i].bytes),
            },
        );
        assert(companions_view(out@) =~= before.push(list@[i as int]@));
        i = i + 1;
        assert(companions_view(out@) =~= companions_view(list@).take(i as int));
    }
    assert(companions_view(list@).take(i as int) =~= companions_view(list@));
    out
}

/// The name of a path, or nothing where it has none.
pub open spec fn name_or_empty(path: Seq<char>) -> Seq<char> {
    match name_of(parts(path)) {
        Some(name) => name,
        None => Seq::empty(),
    }
}

fn name_text(path: &str) -> (r: String)
    ensures
        r@ == name_or_empty(path@),
{
    match file_name(path) {
        Some(name) => name,
        None => String::new(),
    }
}

/// A file name with a hash in it: before the extension, or at the end where
/// there is none.
pub open spec fn hashed_name(name: Seq<char>, hash: Seq<char>) -> Seq<char> {
    match extension_of(name) {
        Some(ext) => if ext.len() > 0 {
            stem_of(name).push('-') + hash + seq!['.'] + ext
        } else {
            stem_of(name).push('-') + hash
        },
        None => stem_of(name).push('-') + hash,
    }
}

/// A path with a hash in its name.
pub open spec fn hashed_path(path: Seq<char>, hash: Seq<char>) -> Seq<char> {
    join_text(parent_text(path), hashed_name(name_or_empty(path), hash))
}

/// Puts a hash into the name of a path, before the extension.
pub fn insert_hash_before_extension(path: &str, hash: &str) -> (r: String)
    ensures
        r@ == hashed_path(path@, hash@),
{
    let dir = parent(path);
    let name = name_text(path);
    let (stem, ext) = split_name(name.as_str());
    let mut filename: String = stem;
    filename.push('-');
    filename.append(hash);
    match ext {
        Some(e) => {
            let chars = to_chars(e.as_str());
            if chars.len() > 0 {
                filename.push('.');
                filename.append(e.as_str());
                assert(filename@ =~= hashed_name(name@, hash@));
            }
        },
        None => {},
    }
    join_path(dir.as_str(), filename.as_str())
}

/// The URL with the hashed name in place of the plain one that it ends with.
/// One that does not end with it stays.
pub open spec fn hashed_url(
    stable_url: Seq<char>,
    relative: Seq<char>,
    hashed_relative: Seq<char>,
) -> Seq<char> {
    let name = name_or_empty(relative);
    if name.len() == 0 || !has_suffix(stable_url, name) {
        stable_url
    } else {
        stable_url.take(stable_url.len() - name.len()) + name_or_empty(hashed_relative)
    }
}

/// Puts the hashed name into a URL in place of the plain one.
pub fn rewrite_url(stable_url: &str, relative: &str, hashed_relative: &str) -> (r: String)
    ensures
        r@ == hashed_url(stable_url@, relative@, hashed_relative@),
{
    let name = to_chars(name_text(relative).as_str());
    let hashed = name_text(hashed_relative);
    let url = to_chars(stable_url);
    if name.len() == 0 || !ends_with(&url, &name) {
        return copy_str(stable_url);
    }
    let cut: usize = url.len() - name.len();
    let mut out = from_chars(&url, 0, cut);
    assert(url@.subrange(0, cut as int) =~= url@.take(cut as int));
    out.append(hashed.as_str());
    out
}

/// The components of a path, with slashes between them.
pub fn path_to_url(path: &str) -> (r: String)
    ensures
        r@ == joined(parts(path@)),
{
    let list = parts_of(path);
    assert(parts_view(list@).skip(0) =~= parts_view(list@));
    join_parts(&list, 0)
}

impl Asset {
    /// Where the asset is written.
    pub open spec fn dest(self, hash: Seq<char>) -> Seq<char> {
        hashed_path(self.relative_path, hash)
    }

    /// The URL under which the asset is shipped: that by which pages name it,
    /// with the hash in it, or else one that is made of its path.
    pub open spec fn url(self, hash: Seq<char>) -> Seq<char> {
        match self.stable_url {
            Some(url) => hashed_url(url, self.relative_path, self.dest(hash)),
            None => seq!['/'] + joined(parts(self.dest(hash))),
        }
    }

    /// How many files are written for the asset.
    pub open spec fn file_count(self) -> nat {
        1 + self.companions.len()
    }

    /// Where the companion is written: beside the asset.
    pub open spec fn companion_path(self, hash: Seq<char>, k: int) -> Seq<char> {
        join_text(parent_text(self.dest(hash)), self.companions[k].0)
    }
}

/// The URL under which an asset with this hash is shipped.
pub fn asset_url(asset: &EmittedAsset, hash: &str) -> (r: String)
    ensures
        r@ == asset@.url(hash@),
{
    let hashed = insert_hash_before_extension(asset.relative_path.as_str(), hash);
    match &asset.stable_url {
        Some(url) => rewrite_url(url.as_str(), asset.relative_path.as_str(), hashed.as_str()),
        None => {
            let mut out: String = String::new();
            out.push('/');
            out.append(path_to_url(hashed.as_str()).as_str());
            assert(out@ =~= seq!['/'] + joined(parts(hashed@)));
            out
        },
    }
}

/// The name is that of a file and of nothing in another directory.
pub open spec fn flat_name(name: Seq<char>) -> bool {
    &&& name.len() > 0
    &&& !name.contains('/')
    &&& !name.contains('\\')
    &&& !has_substring(name, seq!['.', '.'])
}

/// Whether a companion may have this name.
pub fn is_flat_name(name: &str) -> (r: bool)
    ensures
        r == flat_name(name@),
{
    let chars = to_chars(name);
    let mut i: usize = 0;
    while i < chars.len()
        invariant
            i <= chars@.len(),
            chars@ == name@,
            forall|k: int| 0 <= k < i ==> chars@[k] != '/' && chars@[k] != '\\',
        decreases chars@.len() - i,
    {
        if chars[i] == '/' || chars[i] == '\\' {
            assert(name@.contains(chars@[i as int]));
            return false;
        }
        i = i + 1;
    }
    let dots: Vec<char> = vec!['.', '.'];
    assert(dots@ =~= seq!['.', '.']);
    chars.len() > 0 && !contains(&chars, &dots)
}

/// The last `.` of a name, where it has one, is in the name.
pub proof fn lemma_last_dot(name: Seq<char>)
    ensures
        -1 <= last_dot(name) < name.len(),
    decreases name.len(),
{
    if name.len() > 0 {
        lemma_last_dot(name.drop_last());
    }
}

/// A hashed name is a proper name: it has no separator, and is neither `.` nor
/// `..`.
proof fn lemma_hashed_name_proper(name: Seq<char>, hash: Seq<char>)
    requires
        !name.contains('/'),
        !hash.contains('/'),
    ensures
        proper_name(hashed_name(name, hash)),
{
    lemma_last_dot(name);
    let h = hashed_name(name, hash);
    let stem = stem_of(name);
    assert forall|i: int| 0 <= i < h.len() implies h[i] != '/' by {
        let body = stem.push('-') + hash;
        if i < stem.len() {
            assert(h[i] == name[i]);
        } else if i == stem.len() {
            assert(h[i] == '-');
        } else if i < body.len() {
            assert(h[i] == hash[i - stem.len() - 1]);
        } else if i > body.len() {
            let k = last_dot(name) + 1 + (i - body.len() - 1);
            assert(h[i] == name[k]);
        }
    }
    assert(h[stem.len() as int] == '-');
    assert(h.contains('-'));
    assert(!seq!['.'].contains('-'));
    assert(!seq!['.', '.'].contains('-'));
}

proof fn lemma_single_piece(name: Seq<char>)
    requires
        proper_name(name),
    ensures
        body_parts(pieces(name)) == seq![Part::Normal(name)],
        parts(name) == seq![Part::Normal(name)],
{
    let list = seq![Part::Normal(name)];
    assert(well_formed(list));
    assert(list.len() == 1);
    assert(spelled(list) =~= name) by {
        reveal_with_fuel(joined, 2);
        assert(list[0] == Part::Normal(name));
    }
    lemma_parts_of_spelled(list);
    assert(crate::path::lead_parts(name) =~= Seq::empty());
    assert(parts(name) =~= body_parts(pieces(name)));
}

/// A name put behind a directory is one component more.
proof fn lemma_in_directory(base: Seq<char>, name: Seq<char>)
    requires
        proper_name(name),
    ensures
        parts(join_text(base, name)) == parts(base).push(Part::Normal(name)),
{
    lemma_single_piece(name);
    assert(name[0] != '/') by {
        assert(name.contains(name[0]));
    }
    if base.len() == 0 {
        assert(base + name =~= name);
        assert(base =~= Seq::empty());
        assert(parts(base) =~= Seq::empty()) by {
            reveal_with_fuel(body_parts, 2);
        }
        assert(parts(base).push(Part::Normal(name)) =~= seq![Part::Normal(name)]);
    } else if base.last() != '/' {
        lemma_parts_of_join(base, name);
        assert(parts(base) + seq![Part::Normal(name)] =~= parts(base).push(Part::Normal(name)));
    } else if base.len() == 1 {
        let list = seq![Part::Root, Part::Normal(name)];
        lemma_parts_of_spelled(list);
        reveal_with_fuel(joined, 2);
        assert(list.drop_first() =~= seq![Part::Normal(name)]);
        assert(base =~= seq!['/']);
        assert(spelled(list) =~= base + name);
        lemma_parts_of_spelled(seq![Part::Root]);
        assert(seq![Part::Root].drop_first() =~= Seq::empty());
        assert(spelled(seq![Part::Root]) =~= base);
        assert(seq![Part::Root].push(Part::Normal(name)) =~= list);
    } else {
        let front = base.drop_last();
        lemma_parts_of_join(front, name);
        lemma_parts_of_join(front, Seq::empty());
        assert(front.push('/') =~= base);
        assert(front.push('/') + Seq::empty() =~= base);
        assert(body_parts(pieces(Seq::<char>::empty())) =~= Seq::empty()) by {
            reveal_with_fuel(body_parts, 2);
        }
        assert(parts(base) =~= parts(front));
        assert(parts(base) + seq![Part::Normal(name)] =~= parts(base).push(Part::Normal(name)));
    }
}

/// A hash changes the name of a path and nothing else: the file stays in its
/// directory.
pub proof fn lemma_hash_changes_name_only(path: Seq<char>, hash: Seq<char>)
    requires
        !hash.contains('/'),
    ensures
        parts(hashed_path(path, hash)) == parent_parts(parts(path)).push(
            Part::Normal(hashed_name(name_or_empty(path), hash)),
        ),
        name_or_empty(hashed_path(path, hash)) == hashed_name(name_or_empty(path), hash),
        parent_parts(parts(hashed_path(path, hash))) == parent_parts(parts(path)),
{
    let list = parts(path);
    let dir = parent_parts(list);
    let name = name_or_empty(path);
    lemma_parts_well_formed(path);
    lemma_parent_text(path);
    assert(!name.contains('/')) by {
        if list.len() > 0 && list.last() is Normal {
            assert(proper_name(list[list.len() - 1]->Normal_0));
        }
    }
    lemma_hashed_name_proper(name, hash);
    lemma_in_directory(parent_text(path), hashed_name(name, hash));
    let all = parts(hashed_path(path, hash));
    assert(all.drop_last() =~= dir);
    assert(all.last() == Part::Normal(hashed_name(name, hash)));
}

/// A companion with a flat name is written beside its asset. (One that is named
/// `.` names the directory itself.)
pub proof fn lemma_companion_beside_asset(asset: Asset, hash: Seq<char>, k: int)
    requires
        !hash.contains('/'),
        0 <= k < asset.companions.len(),
        flat_name(asset.companions[k].0),
        asset.companions[k].0 != seq!['.'],
    ensures
        parts(asset.companion_path(hash, k)) == parent_parts(parts(asset.relative_path)).push(
            Part::Normal(asset.companions[k].0),
        ),
        parent_parts(parts(asset.companion_path(hash, k))) == parent_parts(parts(asset.dest(hash))),
{
    let name = asset.companions[k].0;
    assert(proper_name(name)) by {
        if name == seq!['.', '.'] {
            assert(crate::text::occurs_at(name, seq!['.', '.'], 0)) by {
                assert(name.subrange(0, 2) =~= name);
            }
        }
    }
    lemma_hash_changes_name_only(asset.relative_path, hash);
    let dir = parent_parts(parts(asset.relative_path));
    lemma_parent_text(asset.dest(hash));
    lemma_in_directory(parent_text(asset.dest(hash)), name);
    let path = parts(asset.companion_path(hash, k));
    assert(path.drop_last() =~= dir);
    assert(path.last() == Part::Normal(name));
}

/// Other content, of another hash, gets another name; the same content the same
/// name.
pub proof fn lemma_names_follow_hashes(name: Seq<char>, one: Seq<char>, two: Seq<char>)
    requires
        one.len() == two.len(),
    ensures
        hashed_name(name, one) == hashed_name(name, two) <==> one == two,
        hashed_name(name, one).len() == hashed_name(name, two).len(),
{
    lemma_last_dot(name);
    let at = stem_of(name).len() + 1;
    if hashed_name(name, one) == hashed_name(name, two) {
        assert forall|i: int| 0 <= i < one.len() implies one[i] == two[i] by {
            assert(hashed_name(name, one)[at + i] == one[i]);
            assert(hashed_name(name, two)[at + i] == two[i]);
        }
        assert(one =~= two);
    }
}

/// A URL that ends with the asset's name is shipped under another one, which
/// ends with the hashed name.
pub proof fn lemma_url_is_hashed(url: Seq<char>, path: Seq<char>, hash: Seq<char>)
    requires
        !hash.contains('/'),
        hash.len() > 0,
        name_or_empty(path).len() > 0,
        has_suffix(url, name_or_empty(path)),
    ensures
        hashed_url(url, path, hashed_path(path, hash)) != url,
        has_suffix(
            hashed_url(url, path, hashed_path(path, hash)),
            hashed_name(name_or_empty(path), hash),
        ),
{
    let name = name_or_empty(path);
    lemma_hash_changes_name_only(path, hash);
    lemma_last_dot(name);
    let new = hashed_url(url, path, hashed_path(path, hash));
    let cut = url.len() - name.len();
    assert(hashed_name(name, hash).len() > name.len());
    assert(new.len() > url.len());
    assert(new.skip(cut) =~= hashed_name(name, hash));
}

} // verus!
