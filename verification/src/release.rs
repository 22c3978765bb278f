//! Self-update: a release's assets are downloaded, checked against the release's
//! checksums, and installed only when all of them have passed.

use crate::auth::{sha256, sha256_of};
use crate::hex::{hex_text, to_hex};
use crate::text::{
    ascii_lowercase, chars_of, is_white, lowercase, run, same, texts, to_lowercase, trimmed_front,
    utf8_text, white,
};
use vstd::prelude::*;
use vstd::utf8::{decode_utf8, is_ascii_chars, valid_utf8};

verus! {

/// How much of a download is read.
pub const DOWNLOAD_MAX: u64 = 33_554_432;

/// What to fetch and where to install it.
pub struct UpgradeConfig {
    /// "owner/repo".
    pub repo: String,
    /// The executable among the assets.
    pub bin_name: String,
    /// Every asset to download and install.
    pub assets: Vec<String>,
    /// The name of the checksums asset.
    pub checksums: String,
    /// Where to install.
    pub install_dir: String,
}

impl UpgradeConfig {
    /// A configuration with the usual checksums asset.
    pub fn new(repo: &str, bin_name: &str, assets: &[&str], install_dir: String) -> (r: Self)
        ensures
            r.repo@ == repo@,
            r.bin_name@ == bin_name@,
            texts(r.assets@) == Seq::new(assets@.len(), |i: int| assets@[i]@),
            r.checksums@ == "SHA256SUMS"@,
            r.install_dir == install_dir,
    {
        let mut list: Vec<String> = Vec::new();
        let mut i: usize = 0;
        while i < assets.len()
            invariant
                i <= assets@.len(),
                list@.len() == i,
                forall|k: int| 0 <= k < i ==> #[trigger] list@[k]@ == assets@[k]@,
            decreases assets@.len() - i,
        {
            list.push(assets[i].to_owned());
            i += 1;
        }
        assert(texts(list@) =~= Seq::new(assets@.len(), |k: int| assets@[k]@));
        UpgradeConfig {
            repo: repo.to_owned(),
            bin_name: bin_name.to_owned(),
            assets: list,
            checksums: "SHA256SUMS".to_owned(),
            install_dir,
        }
    }

    /// Where an asset of the latest release is downloaded from.
    pub fn url(&self, asset: &str) -> (r: String)
        ensures
            r@ == asset_url(self.repo@, asset@),
    {
        let mut out = "https://github.com/".to_owned();
        out.append(self.repo.as_str());
        out.append("/releases/latest/download");
        out.append("/");
        out.append(asset);
        out
    }
}

/// Where an asset of the latest release is downloaded from.
pub open spec fn asset_url(repo: Seq<char>, asset: Seq<char>) -> Seq<char> {
    "https://github.com/"@ + repo + "/releases/latest/download"@ + "/"@ + asset
}

// ---- checksums -------------------------------------------------------------

/// The lines of a text. What stands behind the last newline is a line only where
/// there is something.
pub open spec fn lines_in(s: Seq<char>) -> Seq<Seq<char>>
    decreases s.len(),
{
    if s.len() == 0 {
        Seq::empty()
    } else {
        let n = run(s, seq!['\n']) as int;
        if n < s.len() {
            seq![s.take(n)] + lines_in(s.skip(n + 1))
        } else {
            seq![s]
        }
    }
}

/// How many characters stand before the first white space.
pub open spec fn word_len(s: Seq<char>) -> nat
    decreases s.len(),
{
    if s.len() == 0 || white(s[0]) {
        0
    } else {
        1 + word_len(s.drop_first())
    }
}

/// The first word of a text; empty where it has none.
pub open spec fn first_word(s: Seq<char>) -> Seq<char> {
    let t = trimmed_front(s);
    t.take(word_len(t) as int)
}

/// What stands behind the first word of a text.
pub open spec fn after_word(s: Seq<char>) -> Seq<char> {
    let t = trimmed_front(s);
    t.skip(word_len(t) as int)
}

/// A name without the asterisks at its front.
pub open spec fn without_stars(s: Seq<char>) -> Seq<char>
    decreases s.len(),
{
    if s.len() > 0 && s[0] == '*' {
        without_stars(s.drop_first())
    } else {
        s
    }
}

/// The digest that the lines of a manifest, each a digest and a name, list for an
/// asset: that of the first line with its name. A blank line ends the list.
pub open spec fn listed_in(lines: Seq<Seq<char>>, asset: Seq<char>) -> Option<Seq<char>>
    decreases lines.len(),
{
    if lines.len() == 0 || first_word(lines[0]).len() == 0 {
        None
    } else if without_stars(first_word(after_word(lines[0]))) == asset {
        Some(first_word(lines[0]))
    } else {
        listed_in(lines.drop_first(), asset)
    }
}

/// The checksum of an asset in the lines of a manifest: the listed digest, in small
/// letters.
pub open spec fn sum_in(lines: Seq<Seq<char>>, asset: Seq<char>) -> Option<Seq<char>> {
    match listed_in(lines, asset) {
        Some(digest) => Some(lowercase(digest)),
        None => None,
    }
}

/// The lines of a text.
pub fn lines_of(s: &str) -> (r: Vec<String>)
    ensures
        texts(r@) == lines_in(s@),
{
    let all = chars_of(s);
    let n: usize = all.len();
    let mut out: Vec<String> = Vec::new();
    let mut from: usize = 0;
    let mut i: usize = 0;
    assert(texts(out@) =~= Seq::empty());
    assert(s@.skip(0) =~= s@);
    assert(Seq::<Seq<char>>::empty() + lines_in(s@) =~= lines_in(s@));
    while i < n
        invariant
            all@ == s@,
            n == all@.len(),
            from <= i <= n,
            lines_in(s@) == texts(out@) + lines_in(s@.skip(from as int)),
            run(s@.skip(from as int), seq!['\n']) == (i - from) + run(
                s@.skip(i as int),
                seq!['\n'],
            ),
        decreases n - i,
    {
        let ghost rest = s@.skip(from as int);
        let ghost here = s@.skip(i as int);
        assert(here[0] == s@[i as int]);
        assert(here.drop_first() =~= s@.skip(i + 1));
        assert(seq!['\n'].contains(here[0]) <==> here[0] == '\n') by {
            assert(seq!['\n'][0] == '\n');
        }
        if all[i] == '\n' {
            let line = string_between(&all, from, i);
            proof {
                assert(run(rest, seq!['\n']) == i - from);
                assert(line@ =~= rest.take(i - from));
                assert(rest.skip(i - from + 1) =~= s@.skip(i + 1));
            }
            let ghost before = texts(out@);
            out.push(line);
            assert(texts(out@) =~= before.push(line@));
            assert(before + (seq![line@] + lines_in(s@.skip(i + 1))) =~= texts(out@) + lines_in(
                s@.skip(i + 1),
            ));
            from = i + 1;
        }
        i += 1;
    }
    let ghost rest = s@.skip(from as int);
    assert(s@.skip(n as int) =~= Seq::empty());
    if from < n {
        let line = string_between(&all, from, n);
        assert(line@ =~= rest);
        let ghost before = texts(out@);
        out.push(line);
        assert(texts(out@) =~= before + seq![rest]);
    } else {
        assert(rest =~= Seq::empty());
        assert(texts(out@) + Seq::<Seq<char>>::empty() =~= texts(out@));
    }
    out
}

/// The text between two places.
fn string_between(all: &Vec<char>, from: usize, to: usize) -> (r: String)
    requires
        from <= to <= all@.len(),
    ensures
        r@ == all@.subrange(from as int, to as int),
{
    let mut out: String = String::new();
    let mut i: usize = from;
    assert(all@.subrange(from as int, from as int) =~= Seq::empty());
    while i < to
        invariant
            from <= i <= to <= all@.len(),
            out@ == all@.subrange(from as int, i as int),
        decreases to - i,
    {
        out.push(all[i]);
        i += 1;
        assert(all@.subrange(from as int, i as int) =~= all@.subrange(from as int, i - 1).push(
            all@[i - 1],
        ));
    }
    out
}

/// Cuts a text behind its first word: the word, and what stands behind it.
fn take_word(s: &str) -> (r: (String, String))
    ensures
        r.0@ == first_word(s@),
        r.1@ == after_word(s@),
{
    let all = chars_of(s);
    let n: usize = all.len();
    let mut from: usize = 0;
    assert(s@.skip(0) =~= s@);
    while from < n && is_white(all[from])
        invariant
            all@ == s@,
            n == all@.len(),
            from <= n,
            trimmed_front(s@) == trimmed_front(s@.skip(from as int)),
        decreases n - from,
    {
        assert(s@.skip(from as int).drop_first() =~= s@.skip(from + 1));
        from += 1;
    }
    let ghost t = s@.skip(from as int);
    assert(trimmed_front(s@) == t);
    let mut to: usize = from;
    assert(t.skip(0) =~= t);
    while to < n && !is_white(all[to])
        invariant
            all@ == s@,
            n == all@.len(),
            t == s@.skip(from as int),
            from <= to <= n,
            word_len(t) == (to - from) + word_len(t.skip(to - from)),
        decreases n - to,
    {
        assert(t.skip(to - from)[0] == s@[to as int]);
        assert(t.skip(to - from).drop_first() =~= t.skip(to + 1 - from));
        to += 1;
    }
    assert(word_len(t) == to - from);
    let word = string_between(&all, from, to);
    let rest = string_between(&all, to, n);
    assert(word@ =~= t.take(to - from));
    assert(rest@ =~= t.skip(to - from));
    (word, rest)
}

/// A name without the asterisks at its front.
fn strip_stars(s: &str) -> (r: String)
    ensures
        r@ == without_stars(s@),
{
    let all = chars_of(s);
    let n: usize = all.len();
    let mut from: usize = 0;
    assert(s@.skip(0) =~= s@);
    while from < n && all[from] == '*'
        invariant
            all@ == s@,
            n == all@.len(),
            from <= n,
            without_stars(s@) == without_stars(s@.skip(from as int)),
        decreases n - from,
    {
        assert(s@.skip(from as int).drop_first() =~= s@.skip(from + 1));
        from += 1;
    }
    let out = string_between(&all, from, n);
    assert(out@ =~= s@.skip(from as int));
    out
}

/// The checksum of an asset in a manifest of checksums. Of a digest in ASCII the
/// letters are lowered, and the rest is kept.
pub fn expected_sum(manifest: &str, asset: &str) -> (r: Option<String>)
    ensures
        crate::datum::found(r) == sum_in(lines_in(manifest@), asset@),
        listed_in(lines_in(manifest@), asset@) matches Some(digest) ==> is_ascii_chars(digest)
            ==> lowercase(digest) == ascii_lowercase(digest) && r is Some && r->0@
            == ascii_lowercase(digest),
{
    let lines = lines_of(manifest);
    let ghost all = lines_in(manifest@);
    let mut i: usize = 0;
    assert(all.skip(0) =~= all);
    while i < lines.len()
        invariant
            i <= lines@.len(),
            texts(lines@) == all,
            all == lines_in(manifest@),
            listed_in(all, asset@) == listed_in(all.skip(i as int), asset@),
        decreases lines@.len() - i,
    {
        assert(all.skip(i as int)[0] == texts(lines@)[i as int]);
        assert(all.skip(i as int).drop_first() =~= all.skip(i + 1));
        let (hash, rest) = take_word(lines[i].as_str());
        if hash.as_str().unicode_len() == 0 {
            return None;
        }
        let (name, _) = take_word(rest.as_str());
        if same(strip_stars(name.as_str()).as_str(), asset) {
            return Some(to_lowercase(hash.as_str()));
        }
        i += 1;
    }
    None
}

/// The digest of bytes, in hexadecimal.
pub fn sha256_hex(bytes: &[u8]) -> (r: String)
    ensures
        r@ == hex_text(sha256_of(bytes@)),
{
    let digest = sha256(bytes);
    to_hex(digest.as_slice())
}

/// The text of the checksums asset.
pub fn sums_text(raw: Vec<u8>) -> (r: Result<String, String>)
    ensures
        match r {
            Ok(s) => valid_utf8(raw@) && s@ == decode_utf8(raw@),
            Err(e) => !valid_utf8(raw@) && e@ == "SHA256SUMS is not UTF-8"@,
        },
{
    match utf8_text(raw) {
        Some(s) => Ok(s),
        None => Err("SHA256SUMS is not UTF-8".to_owned()),
    }
}

/// A download, which may not be empty.
pub fn downloaded(url: &str, bytes: Vec<u8>) -> (r: Result<Vec<u8>, String>)
    ensures
        match r {
            Ok(b) => bytes@.len() > 0 && b == bytes,
            Err(e) => bytes@.len() == 0 && e@ == "empty response from "@ + url@,
        },
{
    if bytes.len() == 0 {
        let mut out = "empty response from ".to_owned();
        out.append(url);
        Err(out)
    } else {
        Ok(bytes)
    }
}

/// The verdict on a download: it has to be listed, and its digest has to be the
/// listed one.
pub open spec fn check(
    want: Option<Seq<char>>,
    got: Seq<char>,
    asset: Seq<char>,
    checksums: Seq<char>,
) -> Result<(), Seq<char>> {
    match want {
        None => Err(asset + " not listed in "@ + checksums),
        Some(w) => if w == got {
            Ok(())
        } else {
            Err("checksum mismatch for "@ + asset + ": expected "@ + w + ", got "@ + got)
        },
    }
}

/// The verdict on a download.
pub fn check_sum(want: Option<String>, got: &str, asset: &str, checksums: &str) -> (r: Result<
    (),
    String,
>)
    ensures
        crate::datum::unit_result(r) == check(
            crate::datum::found(want),
            got@,
            asset@,
            checksums@,
        ),
{
    match want {
        None => {
            let mut out = asset.to_owned();
            out.append(" not listed in ");
            out.append(checksums);
            Err(out)
        },
        Some(w) => if same(w.as_str(), got) {
            Ok(())
        } else {
            let mut out = "checksum mismatch for ".to_owned();
            out.append(asset);
            out.append(": expected ");
            out.append(w.as_str());
            out.append(", got ");
            out.append(got);
            Err(out)
        },
    }
}

/// The verdict on the bytes of an asset.
pub open spec fn asset_check(
    sums: Seq<char>,
    asset: Seq<char>,
    checksums: Seq<char>,
    bytes: Seq<u8>,
) -> Result<(), Seq<char>> {
    check(sum_in(lines_in(sums), asset), hex_text(sha256_of(bytes)), asset, checksums)
}

// ---- the upgrade -----------------------------------------------------------

/// What is to be done next.
pub enum UpgradeStep {
    /// Download this asset, and have it verified.
    Fetch { asset: String, url: String },
    /// Install every asset.
    Install,
}

/// What is to be done once so many assets were verified.
pub fn upgrade(cfg: &UpgradeConfig, verified: usize) -> (r: UpgradeStep)
    ensures
        match r {
            UpgradeStep::Fetch { asset, url } => {
                &&& verified < cfg.assets@.len()
                &&& asset@ == cfg.assets@[verified as int]@
                &&& url@ == asset_url(cfg.repo@, asset@)
            },
            UpgradeStep::Install => verified >= cfg.assets@.len(),
        },
{
    if verified < cfg.assets.len() {
        let asset = cfg.assets[verified].clone();
        let url = cfg.url(asset.as_str());
        UpgradeStep::Fetch { asset, url }
    } else {
        UpgradeStep::Install
    }
}

/// How many assets were verified once the next was fetched, or why it is not the
/// one that was released. A digest that is listed in ASCII passes just where it is the
/// digest of the bytes, in letters of either case.
pub fn verify_asset(cfg: &UpgradeConfig, sums: &str, verified: usize, bytes: &[u8]) -> (r: Result<
    usize,
    String,
>)
    requires
        verified < cfg.assets@.len(),
    ensures
        match (
            r,
            asset_check(sums@, cfg.assets@[verified as int]@, cfg.checksums@, bytes@),
        ) {
            (Ok(n), Ok(_)) => n == verified + 1,
            (Err(e), Err(why)) => e@ == why,
            _ => false,
        },
        listed_in(lines_in(sums@), cfg.assets@[verified as int]@) matches Some(digest)
            ==> is_ascii_chars(digest) ==> (r is Ok <==> ascii_lowercase(digest) == hex_text(
            sha256_of(bytes@),
        )),
{
    let asset = cfg.assets[verified].as_str();
    let want = expected_sum(sums, asset);
    let got = sha256_hex(bytes);
    match check_sum(want, got.as_str(), asset, cfg.checksums.as_str()) {
        Ok(_) => {
            assert(cfg.assets@.len() == cfg.assets.len());
            Ok(verified + 1)
        },
        Err(e) => Err(e),
    }
}

/// Whether an asset is the executable.
pub fn is_executable(cfg: &UpgradeConfig, asset: &str) -> (r: bool)
    ensures
        r == (asset@ == cfg.bin_name@),
{
    same(asset, cfg.bin_name.as_str())
}

/// How many assets were verified once these were fetched, one after another; the
/// first that fails ends the upgrade.
pub open spec fn verified_of(
    cfg: UpgradeConfig,
    sums: Seq<char>,
    fetched: Seq<Seq<u8>>,
) -> Result<nat, Seq<char>>
    decreases fetched.len(),
{
    if fetched.len() == 0 {
        Ok(0)
    } else {
        match verified_of(cfg, sums, fetched.drop_last()) {
            Err(e) => Err(e),
            Ok(n) => match asset_check(
                sums,
                cfg.assets@[n as int]@,
                cfg.checksums@,
                fetched.last(),
            ) {
                Ok(_) => Ok(n + 1),
                Err(e) => Err(e),
            },
        }
    }
}

/// Nothing is installed that was not verified: when so many assets count as
/// verified, that many were fetched, and the digest of each is the one that the
/// release lists for it.
pub proof fn only_verified_assets_are_installed(
    cfg: UpgradeConfig,
    sums: Seq<char>,
    fetched: Seq<Seq<u8>>,
    i: int,
)
    requires
        verified_of(cfg, sums, fetched) is Ok,
        0 <= i < fetched.len(),
    ensures
        verified_of(cfg, sums, fetched)->Ok_0 == fetched.len(),
        sum_in(lines_in(sums), cfg.assets@[i]@) == Some(hex_text(sha256_of(fetched[i]))),
    decreases fetched.len(),
{
    let front = fetched.drop_last();
    if front.len() > 0 {
        let k = if i < front.len() {
            i
        } else {
            0
        };
        only_verified_assets_are_installed(cfg, sums, front, k);
        if i < front.len() {
            assert(front[i] == fetched[i]);
        }
    } else {
        assert(verified_of(cfg, sums, front) == Ok::<nat, Seq<char>>(0));
    }
}

// ---- what passes -----------------------------------------------------------

/// Lines end at newlines: what stands before the first is the first line, and the rest
/// is cut in the same way. Text without one is one line.
pub proof fn lines_end_at_newlines(a: Seq<char>, rest: Seq<char>)
    requires
        forall|i: int| 0 <= i < a.len() ==> #[trigger] a[i] != '\n',
    ensures
        lines_in(a + seq!['\n'] + rest) == seq![a] + lines_in(rest),
        a.len() > 0 ==> lines_in(a) == seq![a],
        a.len() == 0 ==> lines_in(a).len() == 0,
{
    let all = a + seq!['\n'] + rest;
    let stops = seq!['\n'];
    assert(stops[0] == '\n');
    assert forall|i: int| 0 <= i < a.len() implies !stops.contains(#[trigger] a[i]) by {}
    let tail = seq!['\n'] + rest;
    assert(all =~= a + tail);
    assert(stops.contains(tail[0]));
    run_to_stop(a, tail, stops);
    assert(all.take(a.len() as int) =~= a);
    assert(all.skip(a.len() as int + 1) =~= rest);
    run_to_stop(a, Seq::empty(), stops);
    assert(a + Seq::<char>::empty() =~= a);
}

/// As many characters stand before a stop as come before it.
proof fn run_to_stop(a: Seq<char>, rest: Seq<char>, stops: Seq<char>)
    requires
        forall|i: int| 0 <= i < a.len() ==> !stops.contains(#[trigger] a[i]),
        rest.len() == 0 || stops.contains(rest[0]),
    ensures
        run(a + rest, stops) == a.len(),
    decreases a.len(),
{
    let s = a + rest;
    if a.len() > 0 {
        let less = a.drop_first();
        assert(s.drop_first() =~= less + rest);
        assert(s[0] == a[0]);
        assert forall|i: int| 0 <= i < less.len() implies !stops.contains(#[trigger] less[i]) by {
            assert(less[i] == a[i + 1]);
        }
        run_to_stop(less, rest, stops);
    } else {
        assert(s =~= rest);
    }
}

/// Whether a text is a word: not empty, and without white space.
pub open spec fn is_word(s: Seq<char>) -> bool {
    s.len() > 0 && forall|i: int| 0 <= i < s.len() ==> !white(#[trigger] s[i])
}

/// A word ends at white space.
proof fn word_ends(w: Seq<char>, rest: Seq<char>)
    requires
        forall|i: int| 0 <= i < w.len() ==> !white(#[trigger] w[i]),
        rest.len() == 0 || white(rest[0]),
    ensures
        word_len(w + rest) == w.len(),
    decreases w.len(),
{
    let s = w + rest;
    if w.len() > 0 {
        let less = w.drop_first();
        assert(s.drop_first() =~= less + rest);
        assert(s[0] == w[0]);
        assert forall|i: int| 0 <= i < less.len() implies !white(#[trigger] less[i]) by {
            assert(less[i] == w[i + 1]);
        }
        word_ends(less, rest);
    } else {
        assert(s =~= rest);
    }
}

/// Whether a line lists a digest for a name: the digest, white space, asterisks or none,
/// and the name, with white space in front or none, and behind white space whatever
/// comes.
pub open spec fn lists(line: Seq<char>, digest: Seq<char>, name: Seq<char>) -> bool {
    &&& is_word(digest)
    &&& is_word(name)
    &&& name[0] != '*'
    &&& exists|lead: Seq<char>, gap: Seq<char>, stars: Seq<char>, tail: Seq<char>|
        {
            &&& line == #[trigger] (lead + digest + gap + stars + name + tail)
            &&& forall|i: int| 0 <= i < lead.len() ==> white(#[trigger] lead[i])
            &&& gap.len() > 0
            &&& forall|i: int| 0 <= i < gap.len() ==> white(#[trigger] gap[i])
            &&& forall|i: int| 0 <= i < stars.len() ==> #[trigger] stars[i] == '*'
            &&& tail.len() == 0 || white(tail[0])
        }
}

/// White space in front of a text is passed over.
proof fn front_is_passed(a: Seq<char>, s: Seq<char>)
    requires
        forall|i: int| 0 <= i < a.len() ==> white(#[trigger] a[i]),
        s.len() > 0 && !white(s[0]),
    ensures
        trimmed_front(a + s) == s,
    decreases a.len(),
{
    if a.len() > 0 {
        let less = a.drop_first();
        assert((a + s).drop_first() =~= less + s);
        assert(white(a[0]));
        assert forall|i: int| 0 <= i < less.len() implies white(#[trigger] less[i]) by {
            assert(less[i] == a[i + 1]);
        }
        front_is_passed(less, s);
    } else {
        assert(a + s =~= s);
    }
}

/// Asterisks in front of a name are passed over.
proof fn stars_are_passed(a: Seq<char>, s: Seq<char>)
    requires
        forall|i: int| 0 <= i < a.len() ==> #[trigger] a[i] == '*',
        s.len() > 0 && s[0] != '*',
    ensures
        without_stars(a + s) == s,
    decreases a.len(),
{
    if a.len() > 0 {
        let less = a.drop_first();
        assert((a + s).drop_first() =~= less + s);
        assert(a[0] == '*');
        assert forall|i: int| 0 <= i < less.len() implies #[trigger] less[i] == '*' by {
            assert(less[i] == a[i + 1]);
        }
        stars_are_passed(less, s);
    } else {
        assert(a + s =~= s);
    }
}

/// A line that lists a digest for a name is read as that digest and that name.
proof fn a_sum_line_is_read(line: Seq<char>, digest: Seq<char>, name: Seq<char>)
    requires
        lists(line, digest, name),
    ensures
        first_word(line) == digest,
        without_stars(first_word(after_word(line))) == name,
{
    let (lead, gap, stars, tail) = choose|
        lead: Seq<char>,
        gap: Seq<char>,
        stars: Seq<char>,
        tail: Seq<char>,
    |
        {
            &&& line == #[trigger] (lead + digest + gap + stars + name + tail)
            &&& forall|i: int| 0 <= i < lead.len() ==> white(#[trigger] lead[i])
            &&& gap.len() > 0
            &&& forall|i: int| 0 <= i < gap.len() ==> white(#[trigger] gap[i])
            &&& forall|i: int| 0 <= i < stars.len() ==> #[trigger] stars[i] == '*'
            &&& tail.len() == 0 || white(tail[0])
        };
    let starred = stars + name;
    let back = gap + (starred + tail);
    let t = digest + back;
    assert(line =~= lead + t);
    assert(!white(digest[0]));
    front_is_passed(lead, t);
    assert(white(gap[0]));
    word_ends(digest, back);
    assert(t.take(digest.len() as int) =~= digest);
    assert(t.skip(digest.len() as int) =~= back);
    let u = starred + tail;
    assert(!white('*'));
    assert forall|i: int| 0 <= i < starred.len() implies !white(#[trigger] starred[i]) by {
        if i < stars.len() {
            assert(starred[i] == stars[i]);
        } else {
            assert(starred[i] == name[i - stars.len()]);
        }
    }
    assert(u[0] == starred[0]);
    front_is_passed(gap, u);
    word_ends(starred, tail);
    assert(u.take(starred.len() as int) =~= starred);
    stars_are_passed(stars, name);
}

/// In a list of digests and names the digest of an asset is that of the first line with
/// its name; an asset that no line names has none. A blank line ends the list.
pub proof fn digests_are_listed_by_name(
    lines: Seq<Seq<char>>,
    digests: Seq<Seq<char>>,
    names: Seq<Seq<char>>,
    asset: Seq<char>,
    blank: Seq<char>,
)
    requires
        digests.len() == names.len(),
        lines.len() == names.len(),
        forall|k: int| 0 <= k < names.len() ==> lists(lines[k], digests[k], #[trigger] names[k]),
        forall|i: int| 0 <= i < blank.len() ==> white(#[trigger] blank[i]),
    ensures
        forall|i: int|
            0 <= i < names.len() && #[trigger] names[i] == asset && (forall|k: int|
                0 <= k < i ==> #[trigger] names[k] != asset) ==> listed_in(lines, asset) == Some(
                digests[i],
            ) && sum_in(lines, asset) == Some(lowercase(digests[i])),
        (forall|i: int| 0 <= i < names.len() ==> #[trigger] names[i] != asset) ==> listed_in(
            lines,
            asset,
        ) is None && sum_in(lines, asset) is None,
        listed_in(seq![blank] + lines, asset) is None,
    decreases names.len(),
{
    blank_has_no_word(blank);
    assert((seq![blank] + lines)[0] == blank);
    if names.len() > 0 {
        assert(lists(lines[0], digests[0], names[0]));
        a_sum_line_is_read(lines[0], digests[0], names[0]);
        if names[0] != asset {
            let l = lines.drop_first();
            let d = digests.drop_first();
            let n = names.drop_first();
            assert forall|k: int| 0 <= k < n.len() implies lists(l[k], d[k], #[trigger] n[k]) by {
                assert(n[k] == names[k + 1] && l[k] == lines[k + 1] && d[k] == digests[k + 1]);
            }
            digests_are_listed_by_name(l, d, n, asset, blank);
            assert forall|i: int|
                0 <= i < names.len() && #[trigger] names[i] == asset && (forall|k: int|
                    0 <= k < i ==> #[trigger] names[k] != asset) implies listed_in(lines, asset) == Some(
                digests[i],
            ) && sum_in(lines, asset) == Some(lowercase(digests[i])) by {
                assert(n[i - 1] == asset);
                assert(d[i - 1] == digests[i]);
                assert forall|k: int| 0 <= k < i - 1 implies #[trigger] n[k] != asset by {
                    assert(n[k] == names[k + 1]);
                }
            }
            if forall|i: int| 0 <= i < names.len() ==> #[trigger] names[i] != asset {
                assert forall|k: int| 0 <= k < n.len() implies #[trigger] n[k] != asset by {
                    assert(n[k] == names[k + 1]);
                }
            }
        }
    }
}

/// White space alone holds no word.
proof fn blank_has_no_word(s: Seq<char>)
    requires
        forall|i: int| 0 <= i < s.len() ==> white(#[trigger] s[i]),
    ensures
        first_word(s).len() == 0,
    decreases s.len(),
{
    if s.len() > 0 {
        let less = s.drop_first();
        assert(white(s[0]));
        assert forall|i: int| 0 <= i < less.len() implies white(#[trigger] less[i]) by {
            assert(less[i] == s[i + 1]);
        }
        blank_has_no_word(less);
    }
}

/// Bytes pass as an asset just where the checksums list it with a digest that is, in
/// small letters, the digest of the bytes. An asset that is not listed is refused, and
/// so is every other digest.
pub proof fn only_the_listed_bytes_pass(
    sums: Seq<char>,
    asset: Seq<char>,
    checksums: Seq<char>,
    bytes: Seq<u8>,
)
    ensures
        ({
            let v = asset_check(sums, asset, checksums, bytes);
            let listed = listed_in(lines_in(sums), asset);
            let got = hex_text(sha256_of(bytes));
            &&& v is Ok <==> listed is Some && lowercase(listed->0) == got
            &&& listed is None ==> v == Err::<(), Seq<char>>(asset + " not listed in "@ + checksums)
            &&& listed is Some && lowercase(listed->0) != got ==> v == Err::<(), Seq<char>>(
                "checksum mismatch for "@ + asset + ": expected "@ + lowercase(listed->0) + ", got "@
                    + got,
            )
        }),
{
}

/// What was released gets installed: where each asset that was fetched passes, all of
/// them count as verified.
pub proof fn released_assets_are_installed(
    cfg: UpgradeConfig,
    sums: Seq<char>,
    fetched: Seq<Seq<u8>>,
)
    requires
        forall|i: int|
            0 <= i < fetched.len() ==> asset_check(
                sums,
                cfg.assets@[i]@,
                cfg.checksums@,
                #[trigger] fetched[i],
            ) is Ok,
    ensures
        verified_of(cfg, sums, fetched) == Ok::<nat, Seq<char>>(fetched.len()),
{
    released_so_far(cfg, sums, fetched, fetched.len());
    assert(fetched.take(fetched.len() as int) =~= fetched);
}

/// The first `n` assets count as verified.
proof fn released_so_far(cfg: UpgradeConfig, sums: Seq<char>, fetched: Seq<Seq<u8>>, n: nat)
    requires
        n <= fetched.len(),
        forall|i: int|
            0 <= i < fetched.len() ==> asset_check(
                sums,
                cfg.assets@[i]@,
                cfg.checksums@,
                #[trigger] fetched[i],
            ) is Ok,
    ensures
        verified_of(cfg, sums, fetched.take(n as int)) == Ok::<nat, Seq<char>>(n),
    decreases n,
{
    let front = fetched.take(n as int);
    if n > 0 {
        released_so_far(cfg, sums, fetched, (n - 1) as nat);
        assert(front.drop_last() =~= fetched.take(n - 1));
        assert(front.last() == fetched[n - 1]);
    }
}

/// An asset is downloaded from the latest release of the repository, under its own
/// name.
pub proof fn assets_come_from_the_latest_release(repo: Seq<char>, asset: Seq<char>)
    ensures
        asset_url(repo, asset) == "https://github.com/"@ + repo + "/releases/latest/download/"@ + asset,
{
    reveal_strlit("/releases/latest/download");
    reveal_strlit("/");
    reveal_strlit("/releases/latest/download/");
    assert("/releases/latest/download"@ + "/"@ =~= "/releases/latest/download/"@);
    assert(asset_url(repo, asset) =~= "https://github.com/"@ + repo + "/releases/latest/download/"@
        + asset);
}

} // verus!
