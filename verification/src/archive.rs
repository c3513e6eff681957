//! Archive handling that can be decided from paths and names alone: picking
//! the decompressor for an archive URL, and mapping an archive entry's
//! recorded path to its place under a destination directory.
//!
//! Source archives conventionally wrap everything in a single version-named
//! top directory.  [`unpack_target`] therefore strips the first real path
//! component of each entry before joining the rest under the destination, so
//! the wrapper directory never appears in the managed layout.

use vstd::prelude::*;

use crate::error::Error;
use crate::text::{ends_with, path_join, seq_ends_with, str_eq};

verus! {

/// The stream decoders an archive download can be fed through.
#[derive(Debug, Clone, Copy, PartialEq, Eq, Structural)]
pub enum Decompressor {
    Gzip,
    Xz,
}

/// The decompressor an archive URL calls for, going by its suffix.
pub open spec fn spec_decompressor(url: Seq<char>) -> Option<Decompressor> {
    if seq_ends_with(url, ".tar.gz"@) || seq_ends_with(url, ".tgz"@) || seq_ends_with(
        url,
        ".taz"@,
    ) {
        Some(Decompressor::Gzip)
    } else if seq_ends_with(url, ".tar.xz"@) {
        Some(Decompressor::Xz)
    } else {
        None
    }
}

/// Pick the decompressor for `url_str`, failing on archives whose compression
/// this crate cannot decode.
pub fn decompressor_for(url_str: &str) -> (r: Result<Decompressor, Error>)
    ensures
        (match spec_decompressor(url_str@) {
            Some(d) => r matches Ok(x) && x == d,
            None => (r matches Err(e) && (e matches Error::UnsupportedArchiveFormat { url } && url@
                == url_str@)),
        }),
{
    if ends_with(url_str, ".tar.gz") || ends_with(url_str, ".tgz") || ends_with(url_str, ".taz") {
        Ok(Decompressor::Gzip)
    } else if ends_with(url_str, ".tar.xz") {
        Ok(Decompressor::Xz)
    } else {
        Err(Error::UnsupportedArchiveFormat { url: String::from_str(url_str) })
    }
}

/// `s` split at every `/`.  Splitting the empty string gives one empty piece,
/// as `str::split` does.
pub open spec fn spec_split_slash(s: Seq<char>) -> Seq<Seq<char>>
    decreases s.len(),
{
    if s.len() == 0 {
        seq![Seq::<char>::empty()]
    } else if s[0] == '/' {
        seq![Seq::<char>::empty()] + spec_split_slash(s.drop_first())
    } else {
        let rest = spec_split_slash(s.drop_first());
        seq![seq![s[0]] + rest[0]] + rest.drop_first()
    }
}

/// A string without `/` splits into just itself.
pub proof fn lemma_split_no_slash(s: Seq<char>)
    requires
        forall|j: int| 0 <= j < s.len() ==> s[j] != '/',
    ensures
        spec_split_slash(s) == seq![s],
    decreases s.len(),
{
    if s.len() == 0 {
        assert(seq![Seq::<char>::empty()] =~~= seq![s]);
    } else {
        assert forall|j: int| 0 <= j < s.drop_first().len() implies s.drop_first()[j] != '/' by {
            assert(s.drop_first()[j] == s[j + 1]);
        }
        lemma_split_no_slash(s.drop_first());
        let rest = spec_split_slash(s.drop_first());
        assert(rest[0] == s.drop_first());
        assert(seq![seq![s[0]] + rest[0]] + rest.drop_first() =~~= seq![s]);
    }
}

/// Splitting at the first `/` of `s` detaches the slash-free head.
pub proof fn lemma_split_at(s: Seq<char>, i: int)
    requires
        0 <= i < s.len(),
        s[i] == '/',
        forall|j: int| 0 <= j < i ==> s[j] != '/',
    ensures
        spec_split_slash(s) == seq![s.subrange(0, i)] + spec_split_slash(
            s.subrange(i + 1, s.len() as int),
        ),
    decreases i,
{
    if i == 0 {
        assert(s.drop_first() =~= s.subrange(1, s.len() as int));
        assert(s.subrange(0, 0) =~= Seq::<char>::empty());
        assert(seq![Seq::<char>::empty()] + spec_split_slash(s.drop_first()) =~~= seq![
            s.subrange(0, 0),
        ] + spec_split_slash(s.subrange(1, s.len() as int)));
    } else {
        let t = s.drop_first();
        assert forall|j: int| 0 <= j < i - 1 implies t[j] != '/' by {
            assert(t[j] == s[j + 1]);
        }
        assert(t[i - 1] == '/');
        lemma_split_at(t, i - 1);
        let rest = spec_split_slash(t);
        assert(t.subrange(i, t.len() as int) =~= s.subrange(i + 1, s.len() as int));
        assert(rest == seq![t.subrange(0, i - 1)] + spec_split_slash(
            s.subrange(i + 1, s.len() as int),
        ));
        assert(rest[0] == t.subrange(0, i - 1));
        assert(seq![s[0]] + t.subrange(0, i - 1) =~= s.subrange(0, i));
        assert(rest.drop_first() =~= spec_split_slash(s.subrange(i + 1, s.len() as int)));
        assert(seq![seq![s[0]] + rest[0]] + rest.drop_first() =~~= seq![s.subrange(0, i)]
            + spec_split_slash(s.subrange(i + 1, s.len() as int)));
    }
}

/// Split `s` at every `/`.
pub fn split_slash(s: &str) -> (r: Vec<String>)
    ensures
        r.deep_view() == spec_split_slash(s@),
    decreases s@.len(),
{
    let n = s.unicode_len();
    let mut i: usize = 0;
    loop
        invariant
            i <= n,
            n == s@.len(),
            forall|j: int| 0 <= j < i ==> s@[j] != '/',
        ensures
            i <= n,
            n == s@.len(),
            forall|j: int| 0 <= j < i ==> s@[j] != '/',
            i < n ==> s@[i as int] == '/',
        decreases n - i,
    {
        if i >= n {
            break;
        }
        if s.get_char(i) == '/' {
            break;
        }
        i = i + 1;
    }
    if i >= n {
        proof {
            lemma_split_no_slash(s@);
        }
        let mut v: Vec<String> = Vec::new();
        v.push(String::from_str(s));
        proof {
            assert(v.deep_view() =~~= seq![s@]);
        }
        v
    } else {
        let head = s.substring_char(0, i);
        let rest = s.substring_char(i + 1, n);
        proof {
            lemma_split_at(s@, i as int);
        }
        let mut v = split_slash(rest);
        v.insert(0, String::from_str(head));
        proof {
            assert(v.deep_view() =~~= seq![s@.subrange(0, i as int)] + spec_split_slash(
                s@.subrange(i + 1, s@.len() as int),
            ));
        }
        v
    }
}

/// A piece of a split path that names a real directory or file: not empty and
/// not the `.` of a leading `./`.
pub open spec fn is_real_component(c: Seq<char>) -> bool {
    c.len() > 0 && c != seq!['.']
}

/// The real components among `parts`, in order.
pub open spec fn real_components(parts: Seq<Seq<char>>) -> Seq<Seq<char>>
    decreases parts.len(),
{
    if parts.len() == 0 {
        Seq::empty()
    } else if is_real_component(parts.last()) {
        real_components(parts.drop_last()) + seq![parts.last()]
    } else {
        real_components(parts.drop_last())
    }
}

/// `real_components` distributes over concatenation.
pub proof fn lemma_real_components_add(a: Seq<Seq<char>>, b: Seq<Seq<char>>)
    ensures
        real_components(a + b) == real_components(a) + real_components(b),
    decreases b.len(),
{
    if b.len() == 0 {
        assert(a + b =~~= a);
        assert(real_components(a) + Seq::<Seq<char>>::empty() =~~= real_components(a));
    } else {
        assert((a + b).drop_last() =~~= a + b.drop_last());
        assert((a + b).last() == b.last());
        lemma_real_components_add(a, b.drop_last());
        if is_real_component(b.last()) {
            assert(real_components(a) + real_components(b.drop_last()) + seq![b.last()] =~~=
            real_components(a) + real_components(b));
        }
    }
}

/// Keep the real components of `parts`, in order.
pub fn filter_real(parts: &Vec<String>) -> (r: Vec<String>)
    ensures
        r.deep_view() == real_components(parts.deep_view()),
{
    proof {
        reveal_strlit(".");
        assert("."@ =~= seq!['.']);
    }
    let mut kept: Vec<String> = Vec::new();
    let mut i: usize = 0;
    while i < parts.len()
        invariant
            i <= parts@.len(),
            kept.deep_view() == real_components(parts.deep_view().take(i as int)),
        decreases parts@.len() - i,
    {
        proof {
            reveal_strlit(".");
            assert("."@ =~= seq!['.']);
            let pv = parts.deep_view();
            assert(pv.take(i + 1).drop_last() =~~= pv.take(i as int));
            assert(pv.take(i + 1).last() == pv[i as int]);
            assert(pv[i as int] == parts@[i as int]@);
        }
        let p = &parts[i];
        if p.as_str().unicode_len() > 0 && !str_eq(p.as_str(), ".") {
            kept.push(p.clone());
            proof {
                let pv = parts.deep_view();
                assert(is_real_component(pv[i as int]));
                assert(real_components(pv.take(i + 1)) == real_components(pv.take(i as int))
                    + seq![pv[i as int]]);
                assert(kept.deep_view() =~~= real_components(pv.take(i as int)) + seq![
                    pv[i as int],
                ]);
            }
        } else {
            proof {
                let pv = parts.deep_view();
                assert(!is_real_component(pv[i as int]));
                assert(real_components(pv.take(i + 1)) == real_components(pv.take(i as int)));
            }
        }
        i = i + 1;
    }
    proof {
        assert(parts.deep_view().take(parts@.len() as int) =~~= parts.deep_view());
    }
    kept
}

/// `dest` with every one of `parts` joined underneath, one `/` per step.
pub open spec fn spec_join_under(dest: Seq<char>, parts: Seq<Seq<char>>) -> Seq<char>
    decreases parts.len(),
{
    if parts.len() == 0 {
        dest
    } else {
        spec_join_under(dest + seq!['/'] + parts[0], parts.drop_first())
    }
}

/// Where the real components of `p`, all of them, land under `dest`.
pub open spec fn spec_join_components(dest: Seq<char>, p: Seq<char>) -> Seq<char> {
    spec_join_under(dest, real_components(spec_split_slash(p)))
}

/// Where an archive entry recorded at `p` lands under `dest`: its first real
/// component is stripped, the remaining ones are joined under `dest`.  An
/// entry with at most one real component lands on `dest` itself.
pub open spec fn spec_unpack_target(dest: Seq<char>, p: Seq<char>) -> Seq<char> {
    let parts = real_components(spec_split_slash(p));
    if parts.len() == 0 {
        dest
    } else {
        spec_join_under(dest, parts.drop_first())
    }
}

/// Entries rooted under a top-level folder land where their remaining path
/// says, whatever that folder is called: the wrapper directory a source
/// archive puts around its content never appears under the destination.
pub proof fn lemma_top_folder_stripped(dest: Seq<char>, top: Seq<char>, rest: Seq<char>)
    requires
        is_real_component(top),
        forall|j: int| 0 <= j < top.len() ==> top[j] != '/',
    ensures
        spec_unpack_target(dest, top + seq!['/'] + rest) == spec_join_components(dest, rest),
{
    let whole = top + seq!['/'] + rest;
    assert(whole[top.len() as int] == '/');
    assert forall|j: int| 0 <= j < top.len() implies whole[j] != '/' by {
        assert(whole[j] == top[j]);
    }
    lemma_split_at(whole, top.len() as int);
    assert(whole.subrange(0, top.len() as int) =~= top);
    assert(whole.subrange(top.len() as int + 1, whole.len() as int) =~= rest);
    lemma_real_components_add(seq![top], spec_split_slash(rest));
    assert(seq![top].last() == top);
    assert(seq![top].drop_last() =~~= Seq::<Seq<char>>::empty());
    assert(real_components(seq![top]) == real_components(seq![top].drop_last()) + seq![top]);
    assert(real_components(Seq::<Seq<char>>::empty()) =~~= Seq::<Seq<char>>::empty());
    assert(real_components(seq![top]) =~~= seq![top]);
    assert(real_components(spec_split_slash(whole)) =~~= seq![top] + real_components(
        spec_split_slash(rest),
    ));
    assert((seq![top] + real_components(spec_split_slash(rest))).drop_first() =~~=
    real_components(spec_split_slash(rest)));
}

/// The path an archive entry recorded at `entry_path` is written to when it
/// is unpacked under `dest`.
pub fn unpack_target(dest: &str, entry_path: &str) -> (r: String)
    ensures
        r@ == spec_unpack_target(dest@, entry_path@),
{
    let parts = split_slash(entry_path);
    let kept = filter_real(&parts);
    let ghost kv = kept.deep_view();
    if kept.len() <= 1 {
        proof {
            if kv.len() == 1 {
                assert(kv.drop_first() =~~= Seq::<Seq<char>>::empty());
            }
        }
        return String::from_str(dest);
    }
    let mut acc = String::from_str(dest);
    let mut i: usize = 1;
    proof {
        assert(kv.skip(1) =~~= kv.drop_first());
    }
    while i < kept.len()
        invariant
            1 <= i <= kv.len(),
            kv == kept.deep_view(),
            kept@.len() == kv.len(),
            spec_join_under(dest@, kv.drop_first()) == spec_join_under(acc@, kv.skip(i as int)),
        decreases kv.len() - i,
    {
        proof {
            assert(kv.skip(i as int)[0] == kv[i as int]);
            assert(kv.skip(i as int).drop_first() =~~= kv.skip(i + 1));
        }
        acc = path_join(acc.as_str(), kept[i].as_str());
        i = i + 1;
    }
    proof {
        assert(kv.skip(kv.len() as int).len() == 0);
    }
    acc
}

} // verus!
