//! Parsing the playlist downloader's output, and the string utilities the
//! commands need.
//!
//! The downloader prints one JSON object per playlist entry. Its raw
//! output is trimmed of surrounding quote characters, cut into entries
//! after each closing brace, and each entry's `url` member — when the
//! entry parses and has one — is formatted into a canonical watch link.
//! Malformed entries are skipped, never fatal.

use vstd::prelude::*;
use vstd::string::StrSliceExecFns;
use vstd::string::StringExecFns;

verus! {

/// Why expanding a playlist failed before its output could be parsed:
/// running the downloader failed, or its output was not UTF-8 text.
#[derive(Clone, Copy, Debug, PartialEq, Eq, Structural)]
pub enum LinksFromPlaylistError {
    IOError,
    Utf8Error,
}

/// `p` occurs contiguously somewhere in `s`.
pub open spec fn has_substring(s: Seq<char>, p: Seq<char>) -> bool {
    exists|i: int|
        0 <= i && i + p.len() <= s.len() && #[trigger] s.subrange(i, i + p.len()) == p
}

/// The pattern occupies `s[i..i+|p|]`.
fn match_at(s: &str, pat: &str, i: usize) -> (r: bool)
    requires
        i + pat@.len() <= s@.len(),
        s@.len() <= usize::MAX as int,
    ensures
        r == (s@.subrange(i as int, i as int + pat@.len() as int) == pat@),
{
    let m = pat.unicode_len();
    let mut k: usize = 0;
    while k < m
        invariant
            k <= m,
            m == pat@.len(),
            i + m <= s@.len() <= usize::MAX as int,
            forall|j: int| 0 <= j < k ==> s@[i + j] == pat@[j],
        decreases m - k,
    {
        if s.get_char(i + k) != pat.get_char(k) {
            proof {
                assert(s@.subrange(i as int, i as int + m as int)[k as int] == s@[i + k]);
            }
            return false;
        }
        k = k + 1;
    }
    proof {
        assert(s@.subrange(i as int, i as int + m as int) =~= pat@);
    }
    true
}

/// Substring search, exactly: true iff the pattern occurs in `s`.
pub fn contains_str(s: &str, pat: &str) -> (r: bool)
    ensures
        r == has_substring(s@, pat@),
{
    let n = s.unicode_len();
    let m = pat.unicode_len();
    if m > n {
        proof {
            if has_substring(s@, pat@) {
                let i = choose|i: int|
                    0 <= i && i + pat@.len() <= s@.len() && #[trigger] s@.subrange(
                        i,
                        i + pat@.len(),
                    ) == pat@;
                assert(false);
            }
        }
        return false;
    }
    if m == 0 {
        proof {
            assert(s@.subrange(0, 0 + pat@.len() as int) =~= pat@);
        }
        return true;
    }
    let mut i: usize = 0;
    while i <= n - m
        invariant
            0 < m <= n,
            n == s@.len(),
            m == pat@.len(),
            i <= n - m + 1,
            forall|j: int| 0 <= j < i ==> #[trigger] s@.subrange(j, j + m as int) != pat@,
        decreases n - i,
    {
        if match_at(s, pat, i) {
            proof {
                assert(s@.subrange(i as int, i as int + pat@.len()) == pat@);
            }
            return true;
        }
        i = i + 1;
    }
    proof {
        if has_substring(s@, pat@) {
            let j = choose|j: int|
                0 <= j && j + pat@.len() <= s@.len() && #[trigger] s@.subrange(
                    j,
                    j + pat@.len(),
                ) == pat@;
            assert(s@.subrange(j, j + m as int) != pat@);
            assert(false);
        }
    }
    false
}

/// The leading quote characters dropped.
pub open spec fn trim_front_spec(s: Seq<char>) -> Seq<char>
    decreases s.len(),
{
    if s.len() > 0 && s[0] == '"' {
        trim_front_spec(s.drop_first())
    } else {
        s
    }
}

/// The trailing quote characters dropped.
pub open spec fn trim_back_spec(s: Seq<char>) -> Seq<char>
    decreases s.len(),
{
    if s.len() > 0 && s[s.len() - 1] == '"' {
        trim_back_spec(s.drop_last())
    } else {
        s
    }
}

/// Quote characters dropped from both ends.
pub open spec fn trim_quotes_spec(s: Seq<char>) -> Seq<char> {
    trim_back_spec(trim_front_spec(s))
}

/// Drop the quote characters surrounding the downloader's output.
pub fn trim_quotes<'a>(s: &'a str) -> (r: &'a str)
    ensures
        r@ == trim_quotes_spec(s@),
{
    let n = s.unicode_len();
    proof {
        assert(s@.subrange(0, n as int) =~= s@);
    }
    let mut a: usize = 0;
    while a < n && s.get_char(a) == '"'
        invariant
            a <= n,
            n == s@.len(),
            trim_front_spec(s@) == trim_front_spec(s@.subrange(a as int, n as int)),
        decreases n - a,
    {
        proof {
            assert(s@.subrange(a as int, n as int)[0] == s@[a as int]);
            assert(s@.subrange(a as int, n as int).drop_first() =~= s@.subrange(
                a as int + 1,
                n as int,
            ));
        }
        a = a + 1;
    }
    proof {
        assert(trim_front_spec(s@) == s@.subrange(a as int, n as int));
    }
    let mut b: usize = n;
    while b > a && s.get_char(b - 1) == '"'
        invariant
            a <= b <= n,
            n == s@.len(),
            trim_front_spec(s@) == s@.subrange(a as int, n as int),
            trim_back_spec(s@.subrange(a as int, n as int)) == trim_back_spec(
                s@.subrange(a as int, b as int),
            ),
        decreases b,
    {
        proof {
            let t = s@.subrange(a as int, b as int);
            assert(t[t.len() - 1] == s@[b - 1]);
            assert(t.drop_last() =~= s@.subrange(a as int, b as int - 1));
        }
        b = b - 1;
    }
    proof {
        assert(trim_back_spec(s@.subrange(a as int, b as int)) == s@.subrange(a as int, b as int));
    }
    s.substring_char(a, b)
}

/// The position of the first closing brace, if any.
pub open spec fn first_close(s: Seq<char>) -> Option<int>
    decreases s.len(),
{
    if s.len() == 0 {
        None
    } else if s[0] == '}' {
        Some(0int)
    } else {
        match first_close(s.drop_first()) {
            Some(i) => Some(i + 1),
            None => None,
        }
    }
}

/// A closing brace at `k` with none before it is the first one.
proof fn lemma_first_close_at(s: Seq<char>, k: int)
    requires
        0 <= k < s.len(),
        s[k] == '}',
        forall|j: int| 0 <= j < k ==> s[j] != '}',
    ensures
        first_close(s) == Some(k),
    decreases k,
{
    if k > 0 {
        assert forall|j: int| 0 <= j < k - 1 implies s.drop_first()[j] != '}' by {
            assert(s.drop_first()[j] == s[j + 1]);
        }
        assert(s.drop_first()[k - 1] == s[k]);
        lemma_first_close_at(s.drop_first(), k - 1);
    }
}

/// No closing brace anywhere means none is found.
proof fn lemma_first_close_none(s: Seq<char>)
    requires
        forall|j: int| 0 <= j < s.len() ==> s[j] != '}',
    ensures
        first_close(s) is None,
    decreases s.len(),
{
    if s.len() > 0 {
        assert forall|j: int| 0 <= j < s.len() - 1 implies s.drop_first()[j] != '}' by {
            assert(s.drop_first()[j] == s[j + 1]);
        }
        lemma_first_close_none(s.drop_first());
    }
}

/// The output cut into entries, each one ending right after a closing
/// brace; text after the last brace forms a final entry of its own.
pub open spec fn split_entries_spec(s: Seq<char>) -> Seq<Seq<char>>
    decreases s.len(),
{
    if s.len() == 0 {
        Seq::empty()
    } else {
        match first_close(s) {
            None => seq![s],
            Some(i) => if 0 <= i < s.len() {
                seq![s.take(i + 1)] + split_entries_spec(s.skip(i + 1))
            } else {
                seq![s]
            },
        }
    }
}

/// Cut the trimmed output into entries after each closing brace.
pub fn split_entries(s: &str) -> (r: Vec<String>)
    ensures
        r.deep_view() == split_entries_spec(s@),
{
    let n = s.unicode_len();
    let mut parts: Vec<String> = Vec::new();
    let mut start: usize = 0;
    let mut idx: usize = 0;
    proof {
        assert(parts.deep_view() + split_entries_spec(s@.skip(0)) =~= split_entries_spec(s@.skip(0)));
        assert(s@.skip(0) =~= s@);
    }
    while idx < n
        invariant
            start <= idx <= n,
            n == s@.len(),
            parts.deep_view() + split_entries_spec(s@.skip(start as int)) == split_entries_spec(s@),
            forall|j: int| start <= j < idx ==> s@[j] != '}',
        decreases n - idx,
    {
        let c = s.get_char(idx);
        if c == '}' {
            let ghost parts0 = parts.deep_view();
            let part = s.substring_char(start, idx + 1).to_owned();
            parts.push(part);
            proof {
                let t = s@.skip(start as int);
                assert forall|j: int| 0 <= j < idx - start implies t[j] != '}' by {
                    assert(t[j] == s@[start + j]);
                }
                assert(t[idx - start] == s@[idx as int]);
                lemma_first_close_at(t, idx - start);
                assert(t.take(idx - start + 1) =~= s@.subrange(start as int, idx + 1));
                assert(t.skip(idx - start + 1) =~= s@.skip(idx + 1));
                assert(split_entries_spec(t) == seq![part@] + split_entries_spec(s@.skip(idx + 1)));
                assert(parts.deep_view() =~= parts0.push(part@));
                assert(parts.deep_view() + split_entries_spec(s@.skip(idx + 1)) =~= parts0
                    + split_entries_spec(t));
            }
            start = idx + 1;
        }
        idx = idx + 1;
    }
    if start < n {
        let ghost parts0 = parts.deep_view();
        let part = s.substring_char(start, n).to_owned();
        parts.push(part);
        proof {
            let t = s@.skip(start as int);
            assert forall|j: int| 0 <= j < t.len() implies t[j] != '}' by {
                assert(t[j] == s@[start + j]);
            }
            lemma_first_close_none(t);
            assert(t =~= s@.subrange(start as int, n as int));
            assert(split_entries_spec(t) == seq![part@]);
            assert(parts.deep_view() =~= parts0.push(part@));
            assert(parts.deep_view() =~= parts0 + split_entries_spec(t));
        }
    } else {
        proof {
            assert(s@.skip(start as int) =~= Seq::<char>::empty());
            assert(parts.deep_view() + split_entries_spec(s@.skip(start as int)) =~= parts.deep_view());
        }
    }
    parts
}

/// What the downloader reports for one entry: the `url` member of the
/// entry's JSON object, exactly when the entry parses as JSON and that
/// member is a string.
pub uninterp spec fn entry_url_spec(s: Seq<char>) -> Option<Seq<char>>;

/// Relies on serde_json: `from_str` parses one JSON document from the
/// text, the `Index<&str>` impl on `Value` selects the named object member
/// (`Null` when the document is no object or lacks it), and `Value::as_str`
/// hands the member back exactly when it is a JSON string. The outcome is
/// a function of the entry text alone.
#[verifier::external_body]
fn entry_url(entry: &str) -> (r: Option<String>)
    ensures
        match r {
            Some(u) => entry_url_spec(entry@) == Some(u@),
            None => entry_url_spec(entry@) is None,
        },
{
    match serde_json::from_str::<serde_json::Value>(entry) {
        Ok(v) => v["url"].as_str().map(|u| u.to_string()),
        Err(_) => None,
    }
}

/// The prefix every produced link carries.
pub open spec fn watch_prefix() -> Seq<char> {
    "https://www.youtube.com/watch?v="@
}

/// A canonical watch link for the given item id.
pub fn watch_url(id: &str) -> (r: String)
    ensures
        r@ == watch_prefix() + id@,
{
    let mut m = String::from_str("https://www.youtube.com/watch?v=");
    m.append(id);
    m
}

/// The links the entries yield, in order: one watch link per entry whose
/// `url` member is present, the others skipped.
pub open spec fn links_from_entries(parts: Seq<Seq<char>>) -> Seq<Seq<char>>
    decreases parts.len(),
{
    if parts.len() == 0 {
        Seq::empty()
    } else {
        let rest = links_from_entries(parts.drop_first());
        match entry_url_spec(parts[0]) {
            Some(u) => seq![watch_prefix() + u] + rest,
            None => rest,
        }
    }
}

/// Everything `get_links_from_playlist` returns, as a function of the raw
/// downloader output.
pub open spec fn get_links_spec(out: Seq<char>) -> Seq<Seq<char>> {
    links_from_entries(split_entries_spec(trim_quotes_spec(out)))
}

/// Turn the downloader's output into the playlist's watch links: trim the
/// surrounding quotes, cut into entries after each closing brace, keep one
/// link per entry that parses and names a `url`, in playlist order.
/// Entries that fail to parse are skipped, not fatal.
pub fn get_links_from_playlist(output: &str) -> (r: Vec<String>)
    ensures
        r.deep_view() == get_links_spec(output@),
{
    let trimmed = trim_quotes(output);
    let entries = split_entries(trimmed);
    let mut result: Vec<String> = Vec::new();
    let mut i: usize = 0;
    proof {
        assert(entries.deep_view().skip(0) =~= entries.deep_view());
        assert(result.deep_view() + links_from_entries(entries.deep_view()) =~= links_from_entries(
            entries.deep_view(),
        ));
    }
    while i < entries.len()
        invariant
            i <= entries.len(),
            entries@.len() == entries.deep_view().len(),
            entries.deep_view() == split_entries_spec(trim_quotes_spec(output@)),
            result.deep_view() + links_from_entries(entries.deep_view().skip(i as int))
                == get_links_spec(output@),
        decreases entries.len() - i,
    {
        let ghost result0 = result.deep_view();
        let ghost tail = entries.deep_view().skip(i as int);
        proof {
            assert(tail[0] == entries.deep_view()[i as int]);
            assert(tail.drop_first() =~= entries.deep_view().skip(i as int + 1));
        }
        match entry_url(entries[i].as_str()) {
            Some(u) => {
                let link = watch_url(u.as_str());
                result.push(link);
                proof {
                    assert(entries.deep_view()[i as int] == entries@[i as int]@);
                    assert(links_from_entries(tail) == seq![watch_prefix() + u@]
                        + links_from_entries(tail.drop_first()));
                    assert(result.deep_view() =~= result0.push(watch_prefix() + u@));
                    assert(result.deep_view() + links_from_entries(tail.drop_first())
                        =~= result0 + links_from_entries(tail));
                }
            },
            None => {
                proof {
                    assert(entries.deep_view()[i as int] == entries@[i as int]@);
                    assert(links_from_entries(tail) == links_from_entries(tail.drop_first()));
                }
            },
        }
        i = i + 1;
    }
    proof {
        assert(entries.deep_view().skip(entries@.len() as int) =~= Seq::<Seq<char>>::empty());
        assert(result.deep_view() + links_from_entries(Seq::<Seq<char>>::empty())
            =~= result.deep_view());
    }
    result
}

} // verus!
