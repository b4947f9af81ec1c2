//! What a production build calls what it ships: names, paths and URLs, character
//! by character.

use vstd::prelude::*;

use crate::path::{joined, last_dot, lemma_parts_well_formed, parts, proper_name, Part};
use crate::pipeline::asset::{
    flat_name, hashed_name, hashed_path, hashed_url, lemma_companion_beside_asset,
    lemma_hash_changes_name_only, Asset,
};
use crate::pipeline::hash::{hex_digit, short_hash};
use crate::text::{has_suffix, occurs_at};

verus! {

proof fn lemma_no_dot(s: Seq<char>)
    requires
        !s.contains('.'),
    ensures
        last_dot(s) == -1,
    decreases s.len(),
{
    if s.len() > 0 {
        assert(s.contains(s[s.len() - 1]));
        assert(!s.drop_last().contains('.')) by {
            if s.drop_last().contains('.') {
                let i = choose|i: int| 0 <= i < s.drop_last().len() && s.drop_last()[i] == '.';
                assert(s[i] == '.');
            }
        }
        lemma_no_dot(s.drop_last());
    }
}

proof fn lemma_dot_at(stem: Seq<char>, ext: Seq<char>)
    requires
        !ext.contains('.'),
    ensures
        last_dot(stem.push('.') + ext) == stem.len(),
    decreases ext.len(),
{
    let s = stem.push('.') + ext;
    if ext.len() == 0 {
        assert(s =~= stem.push('.'));
    } else {
        assert(ext.contains(ext[ext.len() - 1]));
        assert(s.last() == ext.last());
        assert(s.drop_last() =~= stem.push('.') + ext.drop_last());
        assert(!ext.drop_last().contains('.')) by {
            if ext.drop_last().contains('.') {
                let i = choose|i: int| 0 <= i < ext.drop_last().len() && ext.drop_last()[i] == '.';
                assert(ext[i] == '.');
            }
        }
        lemma_dot_at(stem, ext.drop_last());
    }
}

/// The hash stands between the stem of a name and its extension. A name without
/// an extension has it at its end, and so has one that is nothing but a leading
/// dot and what follows it.
pub proof fn lemma_hash_stands_before_extension(
    stem: Seq<char>,
    ext: Seq<char>,
    hash: Seq<char>,
)
    requires
        !ext.contains('.'),
    ensures
        stem.len() > 0 && ext.len() > 0 ==> hashed_name(stem + seq!['.'] + ext, hash) == stem
            + seq!['-'] + hash + seq!['.'] + ext,
        stem.len() > 0 ==> hashed_name(stem + seq!['.'], hash) == stem + seq!['-'] + hash,
        hashed_name(ext, hash) == ext + seq!['-'] + hash,
        hashed_name(seq!['.'] + ext, hash) == seq!['.'] + ext + seq!['-'] + hash,
{
    let name = stem.push('.') + ext;
    assert(stem + seq!['.'] + ext =~= name);
    lemma_dot_at(stem, ext);
    if stem.len() > 0 {
        assert(name.take(stem.len() as int) =~= stem);
        assert(name.skip(stem.len() as int + 1) =~= ext);
        assert(hashed_name(name, hash) =~= if ext.len() > 0 {
            stem + seq!['-'] + hash + seq!['.'] + ext
        } else {
            stem + seq!['-'] + hash
        });
        let bare = stem.push('.') + Seq::<char>::empty();
        lemma_dot_at(stem, Seq::empty());
        assert(stem + seq!['.'] =~= bare);
        assert(bare.take(stem.len() as int) =~= stem);
        assert(bare.skip(stem.len() as int + 1) =~= Seq::empty());
        assert(hashed_name(bare, hash) =~= stem + seq!['-'] + hash);
    }
    lemma_no_dot(ext);
    assert(hashed_name(ext, hash) =~= ext + seq!['-'] + hash);
    let hidden = Seq::<char>::empty().push('.') + ext;
    lemma_dot_at(Seq::empty(), ext);
    assert(seq!['.'] + ext =~= hidden);
    assert(hashed_name(hidden, hash) =~= seq!['.'] + ext + seq!['-'] + hash);
}

/// Where a URL ends with the name of the asset, the URL under which it is shipped
/// is the same with another name: everything in front of the name is kept,
/// character by character, be it a host, a base path or nothing.
pub proof fn lemma_url_keeps_its_front(
    front: Seq<char>,
    name: Seq<char>,
    path: Seq<char>,
    hash: Seq<char>,
)
    requires
        parts(path).len() > 0,
        parts(path).last() == Part::Normal(name),
        !hash.contains('/'),
    ensures
        hashed_url(front + name, path, hashed_path(path, hash)) == front + hashed_name(name, hash),
        forall|i: int|
            0 <= i < front.len() ==> (#[trigger] hashed_url(
                front + name,
                path,
                hashed_path(path, hash),
            )[i]) == front[i],
{
    lemma_parts_well_formed(path);
    lemma_hash_changes_name_only(path, hash);
    assert(proper_name(parts(path)[parts(path).len() - 1]->Normal_0));
    let url = front + name;
    assert(url.skip(url.len() - name.len()) =~= name);
    assert(url.take(url.len() - name.len()) =~= front);
}

/// Whatever the asset's path is replaced by, the URL gets the last component of
/// the new path in place of that of the old one, and keeps what is in front. Two
/// URLs that end with the name differ in front afterwards as they did before.
pub proof fn lemma_url_gets_new_name(
    front: Seq<char>,
    other: Seq<char>,
    name: Seq<char>,
    new: Seq<char>,
    path: Seq<char>,
    new_path: Seq<char>,
)
    requires
        parts(path).len() > 0,
        parts(path).last() == Part::Normal(name),
        parts(new_path).len() > 0,
        parts(new_path).last() == Part::Normal(new),
    ensures
        hashed_url(front + name, path, new_path) == front + new,
        hashed_url(front + name, path, new_path) == hashed_url(other + name, path, new_path)
            <==> front == other,
{
    lemma_parts_well_formed(path);
    assert(proper_name(parts(path)[parts(path).len() - 1]->Normal_0));
    let url = front + name;
    assert(url.skip(url.len() - name.len()) =~= name);
    assert(url.take(url.len() - name.len()) =~= front);
    let two = other + name;
    assert(two.skip(two.len() - name.len()) =~= name);
    assert(two.take(two.len() - name.len()) =~= other);
    if front + new == other + new {
        assert((front + new).len() == (other + new).len());
        assert forall|i: int| 0 <= i < front.len() implies front[i] == other[i] by {
            assert((front + new)[i] == front[i]);
            assert((other + new)[i] == other[i]);
        }
        assert(front =~= other);
    }
}

/// A URL that does not end with the name of the asset is shipped as it is.
pub proof fn lemma_other_urls_stay(
    url: Seq<char>,
    name: Seq<char>,
    path: Seq<char>,
    new_path: Seq<char>,
)
    requires
        parts(path).len() > 0,
        parts(path).last() == Part::Normal(name),
        forall|front: Seq<char>| url != #[trigger] (front + name),
    ensures
        hashed_url(url, path, new_path) == url,
{
    if has_suffix(url, name) {
        let front = url.take(url.len() - name.len());
        assert(url =~= front + name);
    }
}

/// An asset is written in its directory, under its hashed name.
pub proof fn lemma_asset_is_written_in_place(asset: Asset, name: Seq<char>, hash: Seq<char>)
    requires
        parts(asset.relative_path).len() > 0,
        parts(asset.relative_path).last() == Part::Normal(name),
        !hash.contains('/'),
    ensures
        parts(asset.dest(hash)) == parts(asset.relative_path).drop_last().push(
            Part::Normal(hashed_name(name, hash)),
        ),
        asset.stable_url matches Some(url) ==> (forall|front: Seq<char>|
            url == #[trigger] (front + name) ==> asset.url(hash) == front + hashed_name(
                name,
                hash,
            )),
        asset.stable_url is None ==> asset.url(hash) == seq!['/'] + joined(
            parts(asset.dest(hash)),
        ),
{
    lemma_hash_changes_name_only(asset.relative_path, hash);
    if let Some(url) = asset.stable_url {
        assert forall|front: Seq<char>| url == #[trigger] (front + name) implies asset.url(hash)
            == front + hashed_name(name, hash) by {
            lemma_url_keeps_its_front(front, name, asset.relative_path, hash);
        }
    }
}

/// A companion is written in the directory of its asset, under its own name.
pub proof fn lemma_companion_is_written_in_place(asset: Asset, hash: Seq<char>, k: int)
    requires
        parts(asset.relative_path).len() > 0,
        parts(asset.relative_path).last() is Normal,
        !hash.contains('/'),
        0 <= k < asset.companions.len(),
        flat_name(asset.companions[k].0),
        asset.companions[k].0 != seq!['.'],
    ensures
        parts(asset.companion_path(hash, k)) == parts(asset.relative_path).drop_last().push(
            Part::Normal(asset.companions[k].0),
        ),
        asset.file_count() == asset.companions.len() + 1,
{
    lemma_companion_beside_asset(asset, hash, k);
}

/// A name is one that a companion may have exactly where it is not empty, has no
/// separator of any kind, and no two dots stand side by side in it.
pub proof fn lemma_flat_names(name: Seq<char>)
    ensures
        flat_name(name) <==> name.len() > 0 && (forall|i: int|
            0 <= i < name.len() ==> (#[trigger] name[i]) != '/' && name[i] != '\\') && (forall|
            i: int,
        |
            0 <= i < name.len() - 1 && (#[trigger] name[i]) == '.' ==> name[i + 1] != '.'),
{
    let dots = seq!['.', '.'];
    if flat_name(name) {
        assert forall|i: int| 0 <= i < name.len() implies (#[trigger] name[i]) != '/' && name[i]
            != '\\' by {
            assert(name.contains(name[i]));
        }
        assert forall|i: int| 0 <= i < name.len() - 1 && (#[trigger] name[i]) == '.' implies name[i
            + 1] != '.' by {
            if name[i + 1] == '.' {
                assert(name.subrange(i, i + 2) =~= dots);
                assert(occurs_at(name, dots, i));
            }
        }
    } else if name.len() > 0 && !name.contains('/') && !name.contains('\\') {
        let at = choose|at: int| occurs_at(name, dots, at);
        assert(name.subrange(at, at + 2)[0] == dots[0]);
        assert(name.subrange(at, at + 2)[1] == dots[1]);
        assert(name[at] == '.' && name[at + 1] == '.');
    }
}

/// A short hash is the first four bytes of a digest, each as two digits of which
/// the first counts sixteens: digests that differ there have different ones.
pub proof fn lemma_short_hash(digest: Seq<u8>, other: Seq<u8>, i: int)
    requires
        digest.len() >= 4,
        other.len() >= 4,
        0 <= i < 4,
    ensures
        short_hash(digest).len() == 8,
        short_hash(digest)[2 * i] == hex_digit(digest[i] as int / 16),
        short_hash(digest)[2 * i + 1] == hex_digit(digest[i] as int % 16),
        short_hash(digest) == short_hash(other) <==> digest.take(4) == other.take(4),
{
    assert((2 * i) / 2 == i && (2 * i + 1) / 2 == i);
    assert((2 * i) % 2 == 0 && (2 * i + 1) % 2 == 1);
    if short_hash(digest) == short_hash(other) {
        assert forall|k: int| 0 <= k < 4 implies digest[k] == other[k] by {
            assert((2 * k) / 2 == k && (2 * k + 1) / 2 == k);
            assert((2 * k) % 2 == 0 && (2 * k + 1) % 2 == 1);
            assert(short_hash(digest)[2 * k] == hex_digit(digest[k] as int / 16));
            assert(short_hash(other)[2 * k] == hex_digit(other[k] as int / 16));
            assert(short_hash(digest)[2 * k + 1] == hex_digit(digest[k] as int % 16));
            assert(short_hash(other)[2 * k + 1] == hex_digit(other[k] as int % 16));
            lemma_hex_digits(digest[k] as int / 16, other[k] as int / 16);
            lemma_hex_digits(digest[k] as int % 16, other[k] as int % 16);
        }
        assert(digest.take(4) =~= other.take(4));
    }
    if digest.take(4) == other.take(4) {
        assert forall|k: int| 0 <= k < 4 implies digest[k] == other[k] by {
            assert(digest.take(4)[k] == digest[k]);
            assert(other.take(4)[k] == other[k]);
        }
        assert(short_hash(digest) =~= short_hash(other));
    }
}

/// The sixteen digits are `0` to `9` and `a` to `f`, each for its value.
pub proof fn lemma_hex_digits(value: int, other: int)
    requires
        0 <= value < 16,
        0 <= other < 16,
    ensures
        value < 10 ==> hex_digit(value) as int == '0' as int + value,
        value >= 10 ==> hex_digit(value) as int == 'a' as int + value - 10,
        hex_digit(value) == hex_digit(other) <==> value == other,
{
}

} // verus!
