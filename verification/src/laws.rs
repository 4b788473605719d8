//! The format identifier's general laws, proved once and for all names:
//! recognized trailing extensions decide the format whatever the case of
//! the letters, unrecognized chains decide nothing, and inference cannot
//! distinguish a name from its lower-cased form.
use vstd::prelude::*;

use crate::artifact::artifact_rank;
use crate::artifact::compatible_with_current;
use crate::artifact::kept;
use crate::artifact::rank_pred;
use crate::artifact::selected_spec;
use crate::artifact::Artifact;
use crate::chars::dot_tokens;
use crate::chars::ends_with;
use crate::chars::ext_chain;
use crate::chars::file_part;
use crate::chars::last_occurrence;
use crate::chars::lemma_last_occurrence;
use crate::chars::lower_char;
use crate::chars::lower_seq;
use crate::descriptor::Descriptor;
use crate::format::format_of_exts;
use crate::format::format_of_name;
use crate::format::ArtifactFormat;

verus! {

/// Every element a filter keeps satisfies its predicate.
proof fn lemma_kept_all(pred: spec_fn(Artifact) -> bool, s: Seq<Artifact>)
    ensures
        forall|i: int| 0 <= i < kept(pred, s).len() ==> pred(#[trigger] kept(pred, s)[i]),
    decreases s.len(),
{
    if s.len() > 0 {
        lemma_kept_all(pred, s.drop_last());
        let rest = kept(pred, s.drop_last());
        assert forall|i: int| 0 <= i < kept(pred, s).len() implies pred(
            #[trigger] kept(pred, s)[i],
        ) by {
            if i < rest.len() {
                assert(kept(pred, s)[i] == rest[i]);
            } else {
                assert(kept(pred, s)[i] == s.last());
            }
        }
    }
}

/// A filter keeps every element that satisfies its predicate.
proof fn lemma_kept_keeps(pred: spec_fn(Artifact) -> bool, s: Seq<Artifact>)
    ensures
        forall|k: int|
            0 <= k < s.len() && pred(#[trigger] s[k]) ==> kept(pred, s).contains(s[k]),
    decreases s.len(),
{
    if s.len() > 0 {
        lemma_kept_keeps(pred, s.drop_last());
        assert forall|k: int| 0 <= k < s.len() && pred(#[trigger] s[k]) implies kept(
            pred,
            s,
        ).contains(s[k]) by {
            if k < s.len() - 1 {
                assert(s.drop_last()[k] == s[k]);
                assert(kept(pred, s.drop_last()).contains(s[k]));
                let i = choose|i: int|
                    0 <= i < kept(pred, s.drop_last()).len() && kept(pred, s.drop_last())[i]
                        == s[k];
                assert(kept(pred, s)[i] == s[k]);
            } else {
                assert(kept(pred, s) == kept(pred, s.drop_last()).push(s.last()));
                assert(kept(pred, s).last() == s[k]);
            }
        }
    }
}

/// The selection output holds only system-compatible artifacts, and its
/// preference ranks never decrease: the most-preferred candidates come
/// first.
pub proof fn lemma_selection_ranked(cur: Descriptor, s: Seq<Artifact>)
    ensures
        forall|i: int|
            0 <= i < selected_spec(cur, s).len() ==> compatible_with_current(
                cur,
                #[trigger] selected_spec(cur, s)[i],
            ),
        forall|i: int, j: int|
            0 <= i <= j < selected_spec(cur, s).len() ==> artifact_rank(
                cur,
                #[trigger] selected_spec(cur, s)[i],
            ) <= artifact_rank(cur, #[trigger] selected_spec(cur, s)[j]),
{
    lemma_kept_all(rank_pred(cur, 0), s);
    lemma_kept_all(rank_pred(cur, 1), s);
    lemma_kept_all(rank_pred(cur, 2), s);
    let a = kept(rank_pred(cur, 0), s);
    let b = kept(rank_pred(cur, 1), s);
    let c = kept(rank_pred(cur, 2), s);
    assert forall|i: int| 0 <= i < selected_spec(cur, s).len() implies compatible_with_current(
        cur,
        #[trigger] selected_spec(cur, s)[i],
    ) && artifact_rank(cur, selected_spec(cur, s)[i]) == (if i < a.len() {
        0int
    } else if i < a.len() + b.len() {
        1int
    } else {
        2int
    }) by {
        if i < a.len() {
            assert(selected_spec(cur, s)[i] == a[i]);
            assert(rank_pred(cur, 0)(a[i]));
        } else if i < a.len() + b.len() {
            assert(selected_spec(cur, s)[i] == b[i - a.len()]);
            assert(rank_pred(cur, 1)(b[i - a.len()]));
        } else {
            assert(selected_spec(cur, s)[i] == c[i - a.len() - b.len()]);
            assert(rank_pred(cur, 2)(c[i - a.len() - b.len()]));
        }
    }
}

/// Every system-compatible artifact of the batch appears in the selection
/// output: filtering drops only incompatible ones.
pub proof fn lemma_selection_complete(cur: Descriptor, s: Seq<Artifact>)
    ensures
        forall|k: int|
            0 <= k < s.len() && compatible_with_current(cur, #[trigger] s[k]) ==> selected_spec(
                cur,
                s,
            ).contains(s[k]),
{
    lemma_kept_keeps(rank_pred(cur, 0), s);
    lemma_kept_keeps(rank_pred(cur, 1), s);
    lemma_kept_keeps(rank_pred(cur, 2), s);
    let a = kept(rank_pred(cur, 0), s);
    let b = kept(rank_pred(cur, 1), s);
    let c = kept(rank_pred(cur, 2), s);
    assert forall|k: int|
        0 <= k < s.len() && compatible_with_current(cur, #[trigger] s[k]) implies selected_spec(
        cur,
        s,
    ).contains(s[k]) by {
        let r = artifact_rank(cur, s[k]);
        assert(0 <= r <= 2);
        assert(rank_pred(cur, r)(s[k]));
        if r == 0 {
            let i = choose|i: int| 0 <= i < a.len() && a[i] == s[k];
            assert(selected_spec(cur, s)[i] == s[k]);
        } else if r == 1 {
            let i = choose|i: int| 0 <= i < b.len() && b[i] == s[k];
            assert(selected_spec(cur, s)[a.len() + i] == s[k]);
        } else {
            let i = choose|i: int| 0 <= i < c.len() && c[i] == s[k];
            assert(selected_spec(cur, s)[a.len() + b.len() + i] == s[k]);
        }
    }
}

/// Lowercasing moves no character onto `.` or `/`, and off them.
proof fn lemma_lower_char_punct(c: char)
    ensures
        (lower_char(c) == '.') == (c == '.'),
        (lower_char(c) == '/') == (c == '/'),
{
    if 'A' <= c && c <= 'Z' {
        assert(c as u8 >= 65 && c as u8 <= 90);
        assert(((c as u8) + 32) as char != '.');
        assert(((c as u8) + 32) as char != '/');
    }
}

/// A character whose lower-cased form is a lower-case letter is not `.`
/// or `/`.
proof fn lemma_lower_is_letter(c: char, t: char)
    requires
        lower_char(c) == t,
        'a' <= t <= 'z',
    ensures
        c != '.',
        c != '/',
{
    lemma_lower_char_punct(c);
}

/// The final path segment keeps any trailing suffix that holds no `/`.
proof fn lemma_file_part_suffix(s: Seq<char>, suf: Seq<char>)
    requires
        ends_with(lower_seq(s), suf),
        forall|k: int| 0 <= k < suf.len() ==> #[trigger] suf[k] != '/',
    ensures
        file_part(s).len() >= suf.len(),
        ends_with(lower_seq(file_part(s)), suf),
{
    let n = s.len() as int;
    let m = suf.len() as int;
    let ls = lower_seq(s);
    assert(forall|k: int|
        0 <= k < m ==> ls[n - m + k] == #[trigger] ls.subrange(n - m, n)[k]);
    assert(forall|k: int| 0 <= k < m ==> ls[n - m + k] == suf[k]);
    lemma_last_occurrence(s, '/');
    let i = last_occurrence(s, '/');
    if i >= n - m {
        assert(s[i] == '/');
        let k = i - (n - m);
        assert(lower_char(s[n - m + k]) == suf[k]);
        lemma_lower_char_punct(s[i]);
        assert(false);
    }
    let fp = file_part(s);
    assert(fp.len() == n - 1 - i >= m);
    assert(forall|x: int| 0 <= x < fp.len() ==> fp[x] == s[i + 1 + x]);
    let lfp = lower_seq(fp);
    assert forall|k: int| 0 <= k < m implies lfp.subrange(lfp.len() - m, lfp.len() as int)[k]
        == suf[k] by {
        assert(lfp[lfp.len() - m + k] == lower_char(fp[fp.len() - m + k]));
        assert(fp[fp.len() - m + k] == s[n - m + k]);
        assert(ls[n - m + k] == suf[k]);
    }
    assert(lfp.subrange(lfp.len() - m, lfp.len() as int) =~= suf);
}

/// A name whose lower-cased form ends in `.` followed by a lower-case
/// token has that token as the last of its dot-separated tokens.
proof fn lemma_dot_tokens_suffix(u: Seq<char>, tok: Seq<char>)
    requires
        1 <= tok.len(),
        forall|k: int| 0 <= k < tok.len() ==> 'a' <= #[trigger] tok[k] <= 'z',
        ends_with(lower_seq(u), seq!['.'] + tok),
    ensures
        dot_tokens(u).len() >= 2,
        lower_seq(dot_tokens(u).last()) =~= tok,
        dot_tokens(u).drop_last() =~= dot_tokens(u.take(u.len() - tok.len() - 1)),
{
    let n = u.len() as int;
    let m = tok.len() as int;
    let lu = lower_seq(u);
    let suf = seq!['.'] + tok;
    assert(lu.len() == n);
    assert(lu.subrange(n - m - 1, n) == suf);
    assert(forall|k: int|
        0 <= k < m + 1 ==> lu[n - m - 1 + k] == #[trigger] lu.subrange(n - m - 1, n)[k]);
    assert(forall|k: int| 0 <= k < m + 1 ==> lu[n - m - 1 + k] == suf[k]);
    assert(suf[0] == '.');
    assert(lu[n - m - 1] == '.');
    assert(lower_char(u[n - m - 1]) == '.');
    lemma_lower_char_punct(u[n - m - 1]);
    assert(u[n - m - 1] == '.');
    assert forall|k: int| 0 <= k < m implies #[trigger] u[n - m + k] != '.' by {
        assert(lower_char(u[n - m + k]) == suf[k + 1]);
        assert(suf[k + 1] == tok[k]);
        lemma_lower_is_letter(u[n - m + k], tok[k]);
    }
    lemma_last_occurrence(u, '.');
    let i = last_occurrence(u, '.');
    if i > n - m - 1 {
        assert(u[i] == '.');
        assert(u[n - m + (i - (n - m))] != '.');
        assert(false);
    }
    if i < n - m - 1 {
        assert(u[n - m - 1] != '.');
        assert(false);
    }
    assert(i == n - m - 1);
    assert(dot_tokens(u) == dot_tokens(u.subrange(0, i)).push(u.subrange(i + 1, n)));
    let t = u.subrange(i + 1, n);
    assert(dot_tokens(u).last() == t);
    assert forall|k: int| 0 <= k < m implies lower_seq(t)[k] == tok[k] by {
        assert(t[k] == u[n - m + k]);
        assert(lower_char(u[n - m + k]) == suf[k + 1]);
    }
    assert(lower_seq(t) =~= tok);
    assert(dot_tokens(u).drop_last() =~= dot_tokens(u.subrange(0, i)));
    assert(u.subrange(0, i) =~= u.take(n - m - 1));
}

/// Shared skeleton: a lower-case token preceded by a dot at the very end
/// of a name is the last entry of the name's extension chain.
proof fn lemma_chain_trailing(s: Seq<char>, tok: Seq<char>)
    requires
        1 <= tok.len(),
        forall|k: int| 0 <= k < tok.len() ==> 'a' <= #[trigger] tok[k] <= 'z',
        ends_with(lower_seq(s), seq!['.'] + tok),
    ensures
        ext_chain(s).len() >= 1,
        lower_seq(ext_chain(s).last()) =~= tok,
{
    let suf = seq!['.'] + tok;
    assert forall|k: int| 0 <= k < suf.len() implies #[trigger] suf[k] != '/' by {
        if k > 0 {
            assert(suf[k] == tok[k - 1]);
        }
    }
    lemma_file_part_suffix(s, suf);
    let fp = file_part(s);
    lemma_dot_tokens_suffix(fp, tok);
    assert(ext_chain(s).last() == dot_tokens(fp).last());
}

/// Every name ending in `.zip` (in any case) is a zip archive.
pub proof fn lemma_zip_name(s: Seq<char>)
    requires
        ends_with(lower_seq(s), seq!['.', 'z', 'i', 'p']),
    ensures
        format_of_name(s) == Some(ArtifactFormat::Zip),
{
    assert(seq!['.', 'z', 'i', 'p'] =~= seq!['.'] + seq!['z', 'i', 'p']);
    lemma_chain_trailing(s, seq!['z', 'i', 'p']);
}

/// Every name ending in `.tar` (in any case) is a tar archive.
pub proof fn lemma_tar_name(s: Seq<char>)
    requires
        ends_with(lower_seq(s), seq!['.', 't', 'a', 'r']),
    ensures
        format_of_name(s) == Some(ArtifactFormat::Tar),
{
    assert(seq!['.', 't', 'a', 'r'] =~= seq!['.'] + seq!['t', 'a', 'r']);
    lemma_chain_trailing(s, seq!['t', 'a', 'r']);
}

/// Every name ending in `.tgz` (in any case) is a gzip-compressed tar
/// archive.
pub proof fn lemma_tgz_name(s: Seq<char>)
    requires
        ends_with(lower_seq(s), seq!['.', 't', 'g', 'z']),
    ensures
        format_of_name(s) == Some(ArtifactFormat::TarGz),
{
    assert(seq!['.', 't', 'g', 'z'] =~= seq!['.'] + seq!['t', 'g', 'z']);
    lemma_chain_trailing(s, seq!['t', 'g', 'z']);
}

/// Every name ending in `.exe` (in any case) is a Windows executable.
pub proof fn lemma_exe_name(s: Seq<char>)
    requires
        ends_with(lower_seq(s), seq!['.', 'e', 'x', 'e']),
    ensures
        format_of_name(s) == Some(ArtifactFormat::Pe),
{
    assert(seq!['.', 'e', 'x', 'e'] =~= seq!['.'] + seq!['e', 'x', 'e']);
    lemma_chain_trailing(s, seq!['e', 'x', 'e']);
}

/// Every name ending in `.tar.gz` (in any case) is a gzip-compressed tar
/// archive.
pub proof fn lemma_tar_gz_name(s: Seq<char>)
    requires
        ends_with(lower_seq(s), seq!['.', 't', 'a', 'r', '.', 'g', 'z']),
    ensures
        format_of_name(s) == Some(ArtifactFormat::TarGz),
{
    let suf = seq!['.', 't', 'a', 'r', '.', 'g', 'z'];
    assert forall|k: int| 0 <= k < suf.len() implies #[trigger] suf[k] != '/' by {}
    lemma_file_part_suffix(s, suf);
    let fp = file_part(s);
    let lfp = lower_seq(fp);
    let nf = fp.len() as int;
    assert(forall|k: int|
        0 <= k < 7 ==> lfp[nf - 7 + k] == #[trigger] lfp.subrange(nf - 7, nf)[k]);
    assert(forall|k: int| 0 <= k < 7 ==> lfp[nf - 7 + k] == suf[k]);
    // the trailing "gz" token
    assert(lfp.subrange(nf - 3, nf) =~= seq!['.'] + seq!['g', 'z']);
    lemma_dot_tokens_suffix(fp, seq!['g', 'z']);
    // the "tar" token right before it
    let pre = fp.take(nf - 3);
    assert(lower_seq(pre) =~= lfp.take(nf - 3));
    assert(lower_seq(pre).subrange(pre.len() - 4, pre.len() as int) =~= seq!['.'] + seq![
        't',
        'a',
        'r',
    ]) by {
        assert(forall|k: int|
            0 <= k < 4 ==> #[trigger] lfp.take(nf - 3)[nf - 7 + k] == lfp[nf - 7 + k]);
    }
    assert(ends_with(lower_seq(pre), seq!['.'] + seq!['t', 'a', 'r']));
    lemma_dot_tokens_suffix(pre, seq!['t', 'a', 'r']);
    // assemble the chain facts
    let dt = dot_tokens(fp);
    assert(dt.drop_last() =~= dot_tokens(pre));
    assert(dt.len() >= 3);
    let chain = ext_chain(s);
    assert(chain.len() >= 2);
    assert(chain.last() == dt.last());
    assert(lower_seq(chain.last()) =~= seq!['g', 'z']);
    assert(chain[chain.len() - 2] == dt[dt.len() - 2]);
    assert(dt[dt.len() - 2] == dot_tokens(pre).last());
    assert(lower_seq(chain[chain.len() - 2]) =~= seq!['t', 'a', 'r']);
}

/// A name whose final path segment holds no dot at all is a bare Unix
/// executable.
pub proof fn lemma_no_extension_name(s: Seq<char>)
    requires
        last_occurrence(file_part(s), '.') == -1,
    ensures
        format_of_name(s) == Some(ArtifactFormat::Elf),
{
    assert(dot_tokens(file_part(s)) == seq![file_part(s)]);
    assert(ext_chain(s) =~= Seq::<Seq<char>>::empty());
}

/// Lowercasing a name moves no dot or slash, so the last occurrence of
/// either is unchanged.
proof fn lemma_last_occ_lower(u: Seq<char>, ch: char)
    requires
        ch == '.' || ch == '/',
    ensures
        last_occurrence(lower_seq(u), ch) == last_occurrence(u, ch),
    decreases u.len(),
{
    let lu = lower_seq(u);
    if u.len() > 0 {
        lemma_lower_char_punct(u[u.len() - 1]);
        assert(lu[u.len() - 1] == lower_char(u[u.len() - 1]));
        assert(lu.take(u.len() - 1) =~= lower_seq(u.take(u.len() - 1)));
        lemma_last_occ_lower(u.take(u.len() - 1), ch);
    }
}

/// The dot-separated tokens of a lower-cased name are the lower-cased
/// tokens of the name.
proof fn lemma_dot_tokens_lower(u: Seq<char>)
    ensures
        dot_tokens(lower_seq(u)).len() == dot_tokens(u).len(),
        forall|k: int|
            0 <= k < dot_tokens(u).len() ==> #[trigger] dot_tokens(lower_seq(u))[k] == lower_seq(
                dot_tokens(u)[k],
            ),
    decreases u.len(),
{
    lemma_last_occ_lower(u, '.');
    lemma_last_occurrence(u, '.');
    let n = u.len() as int;
    let lu = lower_seq(u);
    let i = last_occurrence(u, '.');
    if i < 0 {
        assert(dot_tokens(u) == seq![u]);
        assert(dot_tokens(lu) == seq![lu]);
    } else {
        let pre = u.subrange(0, i);
        assert(lu.subrange(0, i) =~= lower_seq(pre));
        assert(lu.subrange(i + 1, n) =~= lower_seq(u.subrange(i + 1, n)));
        lemma_dot_tokens_lower(pre);
        assert(dot_tokens(u) == dot_tokens(pre).push(u.subrange(i + 1, n)));
        assert(dot_tokens(lu) == dot_tokens(lower_seq(pre)).push(lower_seq(u.subrange(i + 1, n))));
        assert forall|k: int| 0 <= k < dot_tokens(u).len() implies #[trigger] dot_tokens(lu)[k]
            == lower_seq(dot_tokens(u)[k]) by {
            let len = dot_tokens(pre).len() as int;
            if k < len {
                assert(dot_tokens(lu)[k] == dot_tokens(lower_seq(pre))[k]);
                assert(dot_tokens(u)[k] == dot_tokens(pre)[k]);
            }
        }
    }
}

/// Lowercasing is idempotent.
proof fn lemma_lower_idempotent(t: Seq<char>)
    ensures
        lower_seq(lower_seq(t)) =~= lower_seq(t),
{
    assert forall|k: int| 0 <= k < t.len() implies lower_seq(lower_seq(t))[k] == lower_seq(t)[k]
        by {
        let c = t[k];
        assert(lower_seq(t)[k] == lower_char(c));
        if 'A' <= c && c <= 'Z' {
            assert(c as u8 >= 65 && c as u8 <= 90);
            let c2 = ((c as u8) + 32) as char;
            assert(!('A' <= c2 && c2 <= 'Z'));
        }
    }
}

/// The format of an extension chain is that of its lower-cased form.
proof fn lemma_format_of_exts_lower(exts: Seq<Seq<char>>, lexts: Seq<Seq<char>>)
    requires
        lexts.len() == exts.len(),
        forall|k: int| 0 <= k < exts.len() ==> #[trigger] lexts[k] == lower_seq(exts[k]),
    ensures
        format_of_exts(lexts) == format_of_exts(exts),
{
    if exts.len() >= 1 {
        assert(lexts.last() == lower_seq(exts.last()));
        lemma_lower_idempotent(exts.last());
        assert(lower_seq(lexts.last()) == lower_seq(exts.last()));
        assert(lexts[0].len() == exts[0].len());
        if exts.len() >= 2 {
            assert(lexts[exts.len() - 2] == lower_seq(exts[exts.len() - 2]));
            lemma_lower_idempotent(exts[exts.len() - 2]);
            assert(lower_seq(lexts[exts.len() - 2]) == lower_seq(exts[exts.len() - 2]));
        }
    }
}

/// Format inference cannot tell a name from its lower-cased form: it is
/// case-insensitive on the whole input.
pub proof fn lemma_case_insensitive(s: Seq<char>)
    ensures
        format_of_name(lower_seq(s)) == format_of_name(s),
{
    lemma_last_occ_lower(s, '/');
    lemma_last_occurrence(s, '/');
    let fp = file_part(s);
    let i = last_occurrence(s, '/');
    let n = s.len() as int;
    assert forall|x: int| 0 <= x < n - 1 - i implies file_part(lower_seq(s))[x] == lower_seq(
        fp,
    )[x] by {
        assert(file_part(lower_seq(s))[x] == lower_seq(s)[i + 1 + x]);
        assert(lower_seq(s)[i + 1 + x] == lower_char(s[i + 1 + x]));
        assert(fp[x] == s[i + 1 + x]);
        assert(lower_seq(fp)[x] == lower_char(fp[x]));
    }
    assert(file_part(lower_seq(s)) =~= lower_seq(fp));
    lemma_dot_tokens_lower(fp);
    let dt = dot_tokens(fp);
    let ldt = dot_tokens(lower_seq(fp));
    let chain = ext_chain(s);
    let lchain = ext_chain(lower_seq(s));
    assert(lchain =~= ldt.drop_first());
    assert(lchain.len() == chain.len());
    assert forall|k: int| 0 <= k < chain.len() implies #[trigger] lchain[k] == lower_seq(
        chain[k],
    ) by {
        assert(lchain[k] == ldt[k + 1]);
        assert(chain[k] == dt[k + 1]);
    }
    lemma_format_of_exts_lower(chain, lchain);
}

/// An extension chain whose trailing token is none of the recognized ones
/// and whose trailing pair is not `tar`,`gz` decides no format.
pub proof fn lemma_unrecognized_extensions(exts: Seq<Seq<char>>)
    requires
        exts.len() >= 1,
        lower_seq(exts.last()) != seq!['z', 'i', 'p'],
        lower_seq(exts.last()) != seq!['t', 'a', 'r'],
        lower_seq(exts.last()) != seq!['t', 'g', 'z'],
        lower_seq(exts.last()) != seq!['e', 'x', 'e'],
        !(exts.len() >= 2 && lower_seq(exts[exts.len() - 2]) == seq!['t', 'a', 'r'] && lower_seq(
            exts.last(),
        ) == seq!['g', 'z']),
        !(exts.len() == 1 && exts[0].len() == 0),
    ensures
        format_of_exts(exts) == None::<ArtifactFormat>,
{
}

} // verus!
