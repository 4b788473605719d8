//! The format identifier: infers a release asset's container or executable
//! format from the extension chain of its filename, and parses the canonical
//! format tokens supplied explicitly by a user.
use vstd::prelude::*;

use crate::chars::chars_string;
use crate::chars::dot_tokens;
use crate::chars::eq_chars;
use crate::chars::ext_chain;
use crate::chars::file_part;
use crate::chars::find_last;
use crate::chars::last_occurrence;
use crate::chars::lemma_last_occurrence;
use crate::chars::lower_seq;
use crate::chars::seq_views;
use crate::chars::str_chars;
use crate::chars::to_lower;
use crate::chars::trim_chars;
use crate::chars::trim_seq;

verus! {

/// A container or executable format of a release asset: an archive
/// (`Zip`, `Tar`, `TarGz`), a bare Windows executable (`Pe`), or a bare
/// extension-less Unix executable (`Elf`).
#[derive(Clone, Copy, Debug, PartialEq, Eq, Hash, Structural)]
pub enum ArtifactFormat {
    Zip,
    Tar,
    TarGz,
    Pe,
    Elf,
}

/// The canonical token of each format, as `as_str` returns it.
pub open spec fn format_token(f: ArtifactFormat) -> Seq<char> {
    match f {
        ArtifactFormat::Zip => seq!['z', 'i', 'p'],
        ArtifactFormat::Tar => seq!['t', 'a', 'r'],
        ArtifactFormat::TarGz => seq!['t', 'a', 'r', '.', 'g', 'z'],
        ArtifactFormat::Pe => seq!['e', 'x', 'e'],
        ArtifactFormat::Elf => Seq::<char>::empty(),
    }
}

/// Format inferred from an extension chain: the trailing token decides for
/// `zip`, `tar`, `tgz` and `exe`; the trailing pair `tar`,`gz` decides for
/// gzip-compressed tar; an empty chain is a bare Unix executable.
/// Matching is ASCII-case-insensitive.
pub open spec fn format_of_exts(exts: Seq<Seq<char>>) -> Option<ArtifactFormat> {
    if exts.len() >= 1 && lower_seq(exts.last()) == seq!['z', 'i', 'p'] {
        Some(ArtifactFormat::Zip)
    } else if exts.len() >= 1 && lower_seq(exts.last()) == seq!['t', 'a', 'r'] {
        Some(ArtifactFormat::Tar)
    } else if exts.len() >= 1 && lower_seq(exts.last()) == seq!['t', 'g', 'z'] {
        Some(ArtifactFormat::TarGz)
    } else if exts.len() >= 2 && lower_seq(exts[exts.len() - 2]) == seq!['t', 'a', 'r']
        && lower_seq(exts.last()) == seq!['g', 'z'] {
        Some(ArtifactFormat::TarGz)
    } else if exts.len() >= 1 && lower_seq(exts.last()) == seq!['e', 'x', 'e'] {
        Some(ArtifactFormat::Pe)
    } else if exts.len() == 0 || (exts.len() == 1 && exts[0].len() == 0) {
        Some(ArtifactFormat::Elf)
    } else {
        None
    }
}

/// Format inferred from a whole filename, path or URL: the extension chain
/// of the part after the last `/` decides.
pub open spec fn format_of_name(s: Seq<char>) -> Option<ArtifactFormat> {
    format_of_exts(ext_chain(s))
}

/// Format accepted for an explicitly supplied token: exactly the canonical
/// tokens `zip`, `tar`, `tar.gz`, `tgz`, `exe` and `bin`, compared
/// case-insensitively and ignoring surrounding whitespace; every other
/// token is rejected.
pub open spec fn format_of_token(s: Seq<char>) -> Option<ArtifactFormat> {
    let t = lower_seq(trim_seq(s));
    if t == seq!['z', 'i', 'p'] {
        Some(ArtifactFormat::Zip)
    } else if t == seq!['t', 'a', 'r'] {
        Some(ArtifactFormat::Tar)
    } else if t == seq!['t', 'a', 'r', '.', 'g', 'z'] || t == seq!['t', 'g', 'z'] {
        Some(ArtifactFormat::TarGz)
    } else if t == seq!['e', 'x', 'e'] {
        Some(ArtifactFormat::Pe)
    } else if t == seq!['b', 'i', 'n'] {
        Some(ArtifactFormat::Elf)
    } else {
        None
    }
}

/// The message reported for an unrecognized format token.
pub open spec fn unknown_format_msg(t: Seq<char>) -> Seq<char> {
    seq![
        'u',
        'n',
        'k',
        'n',
        'o',
        'w',
        'n',
        ' ',
        'a',
        'r',
        't',
        'i',
        'f',
        'a',
        'c',
        't',
        ' ',
        'f',
        'o',
        'r',
        'm',
        'a',
        't',
        ' ',
        '\'',
    ] + t + seq!['\'']
}

impl ArtifactFormat {
    /// The canonical textual token of this format (empty for `Elf`).
    pub fn as_str(&self) -> (r: &'static str)
        ensures
            r@ == format_token(*self),
    {
        match self {
            ArtifactFormat::Zip => {
                let s = "zip";
                proof {
                    reveal_strlit("zip");
                    assert(s@ =~= format_token(ArtifactFormat::Zip));
                }
                s
            },
            ArtifactFormat::Tar => {
                let s = "tar";
                proof {
                    reveal_strlit("tar");
                    assert(s@ =~= format_token(ArtifactFormat::Tar));
                }
                s
            },
            ArtifactFormat::TarGz => {
                let s = "tar.gz";
                proof {
                    reveal_strlit("tar.gz");
                    assert(s@ =~= format_token(ArtifactFormat::TarGz));
                }
                s
            },
            ArtifactFormat::Pe => {
                let s = "exe";
                proof {
                    reveal_strlit("exe");
                    assert(s@ =~= format_token(ArtifactFormat::Pe));
                }
                s
            },
            ArtifactFormat::Elf => {
                let s = "";
                proof {
                    reveal_strlit("");
                    assert(s@ =~= format_token(ArtifactFormat::Elf));
                }
                s
            },
        }
    }

    /// Infers the format from an ordered extension chain.
    pub fn from_extensions(extensions: &Vec<String>) -> (r: Option<ArtifactFormat>)
        ensures
            r == format_of_exts(seq_views(extensions@)),
    {
        let ghost exts = seq_views(extensions@);
        let n = extensions.len();
        if n == 0 {
            return Some(ArtifactFormat::Elf);
        }
        let last_raw = str_chars(extensions[n - 1].as_str());
        let last = to_lower(&last_raw);
        proof {
            assert(exts.last() == extensions@[n - 1]@);
        }
        if eq_chars(&last, &vec!['z', 'i', 'p']) {
            Some(ArtifactFormat::Zip)
        } else if eq_chars(&last, &vec!['t', 'a', 'r']) {
            Some(ArtifactFormat::Tar)
        } else if eq_chars(&last, &vec!['t', 'g', 'z']) {
            Some(ArtifactFormat::TarGz)
        } else {
            let pair = if n >= 2 {
                let pen_raw = str_chars(extensions[n - 2].as_str());
                let pen = to_lower(&pen_raw);
                eq_chars(&pen, &vec!['t', 'a', 'r']) && eq_chars(&last, &vec!['g', 'z'])
            } else {
                false
            };
            if pair {
                Some(ArtifactFormat::TarGz)
            } else if eq_chars(&last, &vec!['e', 'x', 'e']) {
                Some(ArtifactFormat::Pe)
            } else if n == 1 && extensions[0].as_str().is_empty() {
                Some(ArtifactFormat::Elf)
            } else {
                None
            }
        }
    }

    /// Infers the format from a filename, path or URL.
    pub fn from_path_or_url(path_or_url: &str) -> (r: Option<ArtifactFormat>)
        ensures
            r == format_of_name(path_or_url@),
    {
        let (_filename, extensions) = split_filename_and_extensions(path_or_url);
        ArtifactFormat::from_extensions(&extensions)
    }
}

/// The message reported for an unrecognized format token.
fn unknown_format_message(t: &Vec<char>) -> (r: String)
    ensures
        r@ == unknown_format_msg(t@),
{
    let mut msg: Vec<char> = vec![
        'u',
        'n',
        'k',
        'n',
        'o',
        'w',
        'n',
        ' ',
        'a',
        'r',
        't',
        'i',
        'f',
        'a',
        'c',
        't',
        ' ',
        'f',
        'o',
        'r',
        'm',
        'a',
        't',
        ' ',
        '\'',
    ];
    let ghost prefix = msg@;
    let mut i: usize = 0;
    while i < t.len()
        invariant
            i <= t@.len(),
            msg@ =~= prefix + t@.take(i as int),
        decreases t@.len() - i,
    {
        msg.push(t[i]);
        i += 1;
    }
    msg.push('\'');
    proof {
        assert(t@.take(t@.len() as int) =~= t@);
        assert(msg@ =~= unknown_format_msg(t@));
    }
    chars_string(&msg)
}

impl ArtifactFormat {
    /// Parses an explicitly supplied format token: exactly `zip`, `tar`,
    /// `tar.gz`, `tgz`, `exe` and `bin` are accepted, case-insensitively
    /// and ignoring surrounding whitespace; any other token is rejected
    /// with a message naming it.
    pub fn parse(s: &str) -> (r: Result<ArtifactFormat, String>)
        ensures
            match r {
                Ok(f) => format_of_token(s@) == Some(f),
                Err(e) => format_of_token(s@) is None && e@ == unknown_format_msg(
                    lower_seq(trim_seq(s@)),
                ),
            },
    {
        let cs = str_chars(s);
        let trimmed = trim_chars(&cs);
        let t = to_lower(&trimmed);
        if eq_chars(&t, &vec!['z', 'i', 'p']) {
            Ok(ArtifactFormat::Zip)
        } else if eq_chars(&t, &vec!['t', 'a', 'r']) {
            Ok(ArtifactFormat::Tar)
        } else if eq_chars(&t, &vec!['t', 'a', 'r', '.', 'g', 'z']) || eq_chars(
            &t,
            &vec!['t', 'g', 'z'],
        ) {
            Ok(ArtifactFormat::TarGz)
        } else if eq_chars(&t, &vec!['e', 'x', 'e']) {
            Ok(ArtifactFormat::Pe)
        } else if eq_chars(&t, &vec!['b', 'i', 'n']) {
            Ok(ArtifactFormat::Elf)
        } else {
            Err(unknown_format_message(&t))
        }
    }
}

impl core::str::FromStr for ArtifactFormat {
    type Err = String;

    fn from_str(s: &str) -> Result<ArtifactFormat, String> {
        ArtifactFormat::parse(s)
    }
}

/// Splits `v` into the part before the first `.` and the dot-separated
/// tokens after it.
fn split_dots(v: Vec<char>) -> (res: (Vec<char>, Vec<String>))
    ensures
        res.0@ == dot_tokens(v@).first(),
        seq_views(res.1@) == dot_tokens(v@).drop_first(),
{
    let ghost whole = v@;
    let mut rest = v;
    let mut toks_rev: Vec<String> = Vec::new();
    let mut going = true;
    while going
        invariant
            dot_tokens(whole) =~= dot_tokens(rest@) + rev_views(toks_rev@),
            !going ==> last_occurrence(rest@, '.') == -1,
        decreases (if going {
            1int
        } else {
            0int
        }), rest@.len(),
    {
        match find_last(&rest, '.') {
            None => {
                going = false;
            },
            Some(i) => {
                let rlen = rest.len();
                proof {
                    lemma_last_occurrence(rest@, '.');
                    assert(i < rlen);
                }
                let ghost before = rest@;
                let mut tok: Vec<char> = Vec::new();
                let mut k: usize = i + 1;
                while k < rest.len()
                    invariant
                        i + 1 <= k <= rest@.len(),
                        tok@ =~= rest@.subrange(i + 1, k as int),
                    decreases rest@.len() - k,
                {
                    tok.push(rest[k]);
                    k += 1;
                }
                toks_rev.push(chars_string(&tok));
                rest.truncate(i);
                proof {
                    assert(rest@ =~= before.subrange(0, i as int));
                    assert(dot_tokens(before) == dot_tokens(before.subrange(0, i as int)).push(
                        before.subrange(i + 1, before.len() as int)));
                    lemma_rev_views_push(
                        toks_rev@.drop_last(),
                        toks_rev@.last(),
                    );
                    assert(toks_rev@.drop_last().push(toks_rev@.last()) =~= toks_rev@);
                    assert(dot_tokens(whole) =~= dot_tokens(rest@) + rev_views(toks_rev@));
                }
            },
        }
    }
    proof {
        assert(dot_tokens(rest@) =~= seq![rest@]);
    }
    let mut exts: Vec<String> = Vec::new();
    let mut k: usize = toks_rev.len();
    while k > 0
        invariant
            k <= toks_rev@.len(),
            exts@.len() == toks_rev@.len() - k,
            forall|j: int|
                0 <= j < exts@.len() ==> exts@[j] == toks_rev@[toks_rev@.len() - 1 - j],
        decreases k,
    {
        exts.push(toks_rev[k - 1].clone());
        k -= 1;
    }
    proof {
        assert(seq_views(exts@) =~= rev_views(toks_rev@));
        assert(dot_tokens(whole).first() == rest@);
        assert(dot_tokens(whole).drop_first() =~= rev_views(toks_rev@));
    }
    (rest, exts)
}

/// The views of a string sequence, in reverse order.
pub open spec fn rev_views(v: Seq<String>) -> Seq<Seq<char>> {
    Seq::new(v.len(), |j: int| v[v.len() - 1 - j]@)
}

proof fn lemma_rev_views_push(v: Seq<String>, t: String)
    ensures
        rev_views(v.push(t)) =~= seq![t@] + rev_views(v),
{
    assert forall|j: int| 0 <= j < v.len() + 1 implies rev_views(v.push(t))[j] == (seq![t@]
        + rev_views(v))[j] by {
        if j == 0 {
            assert(v.push(t)[v.len() as int] == t);
        } else {
            assert(v.push(t)[v.len() - j] == v[v.len() - j]);
        }
    }
}

/// Splits a filename, path or URL into the stem of its final path segment
/// and that segment's ordered extension chain.
pub fn split_filename_and_extensions(name: &str) -> (res: (String, Vec<String>))
    ensures
        res.0@ == dot_tokens(file_part(name@)).first(),
        seq_views(res.1@) == ext_chain(name@),
{
    let cs = str_chars(name);
    let clen = cs.len();
    proof {
        lemma_last_occurrence(cs@, '/');
    }
    let start: usize = match find_last(&cs, '/') {
        Some(i) => {
            assert(i < clen);
            i + 1
        },
        None => 0,
    };
    let mut file: Vec<char> = Vec::new();
    let mut k: usize = start;
    while k < cs.len()
        invariant
            start <= k <= cs@.len(),
            file@ =~= cs@.subrange(start as int, k as int),
        decreases cs@.len() - k,
    {
        file.push(cs[k]);
        k += 1;
    }
    proof {
        assert(file@ =~= file_part(cs@));
    }
    let (stem, exts) = split_dots(file);
    (chars_string(&stem), exts)
}

} // verus!
