//! Environment detection: the record of a probed tool and the decisions
//! that turn what was found on the machine into that record.
use vstd::prelude::*;
use vstd::string::*;

use crate::env::platform::{display_name, display_name_for, hint_matches, install_hint_for};
use crate::text::{chars_of, clone_opt_string, escape_text, escaped, str_eq};

verus! {

/// The probed state of one tool.
#[derive(Debug)]
pub struct EnvItem {
    pub id: String,
    pub name: String,
    pub status: EnvStatus,
    pub version: Option<String>,
    pub required_version: Option<String>,
    pub path: Option<String>,
    pub install_hint: Option<InstallHint>,
    pub checked_at: u64,
}

/// What the probe found.
#[derive(Debug)]
pub enum EnvStatus {
    /// The tool was found and runs.
    Available,
    Missing,
    VersionMismatch { found: String, required: String },
    Error { message: String },
    Checking,
}

impl EnvStatus {
    /// The status as the log shows it: the variant's name (`Ok` for an
    /// available tool), then its fields with their text in quotes, escaped
    /// as in a debug listing.
    pub open spec fn text(self) -> Seq<char> {
        match self {
            EnvStatus::Available => "Ok"@,
            EnvStatus::Missing => "Missing"@,
            EnvStatus::VersionMismatch { found, required } => "VersionMismatch { found: \""@
                + escaped(found@) + "\", required: \""@ + escaped(required@) + "\" }"@,
            EnvStatus::Error { message } => "Error { message: \""@ + escaped(message@) + "\" }"@,
            EnvStatus::Checking => "Checking"@,
        }
    }

    /// The status as the log shows it.
    pub fn describe(&self) -> (r: String)
        ensures
            r@ == self.text(),
    {
        match self {
            EnvStatus::Available => "Ok".to_owned(),
            EnvStatus::Missing => "Missing".to_owned(),
            EnvStatus::VersionMismatch { found, required } => "VersionMismatch { found: \"".to_owned().concat(
                escape_text(found.as_str()).as_str(),
            ).concat("\", required: \"").concat(escape_text(required.as_str()).as_str()).concat("\" }"),
            EnvStatus::Error { message } => "Error { message: \"".to_owned().concat(
                escape_text(message.as_str()).as_str(),
            ).concat("\" }"),
            EnvStatus::Checking => "Checking".to_owned(),
        }
    }
}

impl Clone for EnvStatus {
    fn clone(&self) -> (r: Self)
        ensures
            r == *self,
    {
        match self {
            EnvStatus::Available => EnvStatus::Available,
            EnvStatus::Missing => EnvStatus::Missing,
            EnvStatus::VersionMismatch { found, required } => EnvStatus::VersionMismatch {
                found: found.clone(),
                required: required.clone(),
            },
            EnvStatus::Error { message } => EnvStatus::Error { message: message.clone() },
            EnvStatus::Checking => EnvStatus::Checking,
        }
    }
}

impl Clone for InstallHint {
    fn clone(&self) -> (r: Self)
        ensures
            r == *self,
    {
        InstallHint {
            macos: clone_opt_string(&self.macos),
            windows: clone_opt_string(&self.windows),
            linux: clone_opt_string(&self.linux),
        }
    }
}

impl Clone for EnvItem {
    fn clone(&self) -> (r: Self)
        ensures
            r == *self,
    {
        EnvItem {
            id: self.id.clone(),
            name: self.name.clone(),
            status: self.status.clone(),
            version: clone_opt_string(&self.version),
            required_version: clone_opt_string(&self.required_version),
            path: clone_opt_string(&self.path),
            install_hint: match &self.install_hint {
                Some(h) => Some(h.clone()),
                None => None,
            },
            checked_at: self.checked_at,
        }
    }
}

/// Install commands per platform.
#[derive(Debug)]
pub struct InstallHint {
    pub macos: Option<String>,
    pub windows: Option<String>,
    pub linux: Option<String>,
}

/// Probes the tools the application knows.
pub struct EnvProber;


/// A character of Unicode's White_Space property, the set that
/// `char::is_whitespace` tests.
pub open spec fn is_white_space(c: char) -> bool {
    let x = c as u32;
    ||| 0x09 <= x <= 0x0D
    ||| x == 0x20
    ||| x == 0x85
    ||| x == 0xA0
    ||| x == 0x1680
    ||| 0x2000 <= x <= 0x200A
    ||| x == 0x2028
    ||| x == 0x2029
    ||| x == 0x202F
    ||| x == 0x205F
    ||| x == 0x3000
}

fn white_space(c: char) -> (r: bool)
    ensures
        r == is_white_space(c),
{
    let x = c as u32;
    (0x09 <= x && x <= 0x0D) || x == 0x20 || x == 0x85 || x == 0xA0 || x == 0x1680 || (0x2000 <= x
        && x <= 0x200A) || x == 0x2028 || x == 0x2029 || x == 0x202F || x == 0x205F || x == 0x3000
}

/// The whitespace-separated words of `s`, after the partial word `cur`.
pub open spec fn word_list(s: Seq<char>, cur: Seq<char>) -> Seq<Seq<char>>
    decreases s.len(),
{
    if s.len() == 0 {
        if cur.len() > 0 {
            seq![cur]
        } else {
            Seq::empty()
        }
    } else if is_white_space(s[0]) {
        (if cur.len() > 0 {
            seq![cur]
        } else {
            Seq::empty()
        }) + word_list(s.drop_first(), Seq::empty())
    } else {
        word_list(s.drop_first(), cur.push(s[0]))
    }
}

/// The whitespace-separated words of `s`, in order.
pub open spec fn words(s: Seq<char>) -> Seq<Seq<char>> {
    word_list(s, Seq::empty())
}

/// `w` without its leading `v`s.
pub open spec fn strip_v(w: Seq<char>) -> Seq<char>
    decreases w.len(),
{
    if w.len() > 0 && w[0] == 'v' {
        strip_v(w.drop_first())
    } else {
        w
    }
}

/// `w` without its trailing commas.
pub open spec fn strip_commas(w: Seq<char>) -> Seq<char>
    decreases w.len(),
{
    if w.len() > 0 && w.last() == ',' {
        strip_commas(w.drop_last())
    } else {
        w
    }
}

/// A word that starts with an ASCII digit and holds a dot.
pub open spec fn looks_like_version(t: Seq<char>) -> bool {
    t.len() > 0 && 48 <= (t[0] as u32) <= 57 && t.contains('.')
}

/// The first word that, without its leading `v`s, looks like a version;
/// given without those `v`s and without trailing commas.
pub open spec fn first_version(ws: Seq<Seq<char>>) -> Option<Seq<char>>
    decreases ws.len(),
{
    if ws.len() == 0 {
        None
    } else if looks_like_version(strip_v(ws[0])) {
        Some(strip_commas(strip_v(ws[0])))
    } else {
        first_version(ws.drop_first())
    }
}

/// No character of `w` is Unicode White_Space (what `char::is_whitespace`
/// tests): tab, line feed, vertical tab, form feed, carriage return, space,
/// next line, no-break space, ogham space mark, the spaces U+2000 to U+200A,
/// line and paragraph separators, narrow no-break space, medium
/// mathematical space and ideographic space.
pub open spec fn free_of_white_space(w: Seq<char>) -> bool {
    forall|i: int|
        0 <= i < w.len() ==> {
            let x = (#[trigger] w[i]) as u32;
            !(x == 0x09 || x == 0x0A || x == 0x0B || x == 0x0C || x == 0x0D || x == 0x20 || x == 0x85
                || x == 0xA0 || x == 0x1680 || (0x2000 <= x && x <= 0x200A) || x == 0x2028 || x
                == 0x2029 || x == 0x202F || x == 0x205F || x == 0x3000)
        }
}

proof fn lemma_words_free(s: Seq<char>, cur: Seq<char>)
    requires
        free_of_white_space(cur),
    ensures
        forall|k: int| 0 <= k < word_list(s, cur).len() ==> free_of_white_space(#[trigger] word_list(s, cur)[k]),
    decreases s.len(),
{
    if s.len() == 0 {
        if cur.len() > 0 {
            assert(word_list(s, cur) == seq![cur]);
            assert(word_list(s, cur)[0] == cur);
        }
    } else {
        if is_white_space(s[0]) {
            lemma_words_free(s.drop_first(), Seq::empty());
            let head: Seq<Seq<char>> = if cur.len() > 0 { seq![cur] } else { Seq::empty() };
            let rest = word_list(s.drop_first(), Seq::empty());
            assert forall|k: int| 0 <= k < (head + rest).len() implies free_of_white_space(#[trigger] (head + rest)[k]) by {
                if k >= head.len() {
                    assert((head + rest)[k] == rest[k - head.len()]);
                } else {
                    assert((head + rest)[k] == cur);
                }
            }
            assert(word_list(s, cur) == head + rest);
        } else {
            let next = cur.push(s[0]);
            assert forall|i: int| 0 <= i < next.len() implies {
                let x = (#[trigger] next[i]) as u32;
                !(x == 0x09 || x == 0x0A || x == 0x0B || x == 0x0C || x == 0x0D || x == 0x20 || x == 0x85
                    || x == 0xA0 || x == 0x1680 || (0x2000 <= x && x <= 0x200A) || x == 0x2028 || x
                    == 0x2029 || x == 0x202F || x == 0x205F || x == 0x3000)
            } by {
                if i < cur.len() {
                    assert(next[i] == cur[i]);
                }
            }
            lemma_words_free(s.drop_first(), next);
            assert(word_list(s, cur) == word_list(s.drop_first(), next));
        }
    }
}

proof fn lemma_strip_free(w: Seq<char>)
    requires
        free_of_white_space(w),
    ensures
        free_of_white_space(strip_commas(strip_v(w))),
{
    lemma_strip_v_free(w);
    lemma_strip_commas_free(strip_v(w));
}

proof fn lemma_strip_v_free(w: Seq<char>)
    requires
        free_of_white_space(w),
    ensures
        free_of_white_space(strip_v(w)),
    decreases w.len(),
{
    if w.len() > 0 && w[0] == 'v' {
        assert forall|i: int| 0 <= i < w.drop_first().len() implies #[trigger] w.drop_first()[i] == w[i + 1] by {}
        lemma_strip_v_free(w.drop_first());
    }
}

proof fn lemma_strip_commas_free(w: Seq<char>)
    requires
        free_of_white_space(w),
    ensures
        free_of_white_space(strip_commas(w)),
    decreases w.len(),
{
    if w.len() > 0 && w.last() == ',' {
        assert forall|i: int| 0 <= i < w.drop_last().len() implies #[trigger] w.drop_last()[i] == w[i] by {}
        lemma_strip_commas_free(w.drop_last());
    }
}

proof fn lemma_first_version_free(ws: Seq<Seq<char>>)
    requires
        forall|k: int| 0 <= k < ws.len() ==> free_of_white_space(#[trigger] ws[k]),
    ensures
        first_version(ws) matches Some(v) ==> free_of_white_space(v),
    decreases ws.len(),
{
    if ws.len() > 0 {
        if looks_like_version(strip_v(ws[0])) {
            lemma_strip_free(ws[0]);
        } else {
            assert forall|k: int| 0 <= k < ws.drop_first().len() implies free_of_white_space(#[trigger] ws.drop_first()[k]) by {
                assert(ws.drop_first()[k] == ws[k + 1]);
            }
            lemma_first_version_free(ws.drop_first());
        }
    }
}

/// The output of `--version` is split at every Unicode White_Space
/// character (carriage return included): a version found in it never holds
/// one.
pub proof fn law_version_has_no_white_space(output: Seq<char>)
    ensures
        first_version(words(output)) matches Some(v) ==> free_of_white_space(v),
{
    lemma_words_free(output, Seq::empty());
    lemma_first_version_free(words(output));
}

proof fn lemma_first_version_cons(w: Seq<char>, rest: Seq<Seq<char>>)
    ensures
        first_version(seq![w] + rest) == if looks_like_version(strip_v(w)) {
            Some(strip_commas(strip_v(w)))
        } else {
            first_version(rest)
        },
{
    assert((seq![w] + rest)[0] == w);
    assert((seq![w] + rest).drop_first() =~= rest);
}

/// Whether the word `c[a..b]` is a version; if so, that version.
fn check_word(output: &str, c: &Vec<char>, a: usize, b: usize) -> (r: Option<String>)
    requires
        c@ == output@,
        a < b <= c@.len(),
    ensures
        ({
            let w = strip_v(c@.subrange(a as int, b as int));
            if looks_like_version(w) {
                r matches Some(v) && v@ == strip_commas(w)
            } else {
                r is None
            }
        }),
{
    let ghost word = c@.subrange(a as int, b as int);
    let mut p = a;
    while p < b && c[p] == 'v'
        invariant
            a <= p <= b,
            b <= c@.len(),
            strip_v(word) == strip_v(c@.subrange(p as int, b as int)),
        decreases b - p,
    {
        assert(c@.subrange(p as int, b as int).drop_first() =~= c@.subrange(p + 1, b as int));
        p = p + 1;
    }
    let ghost t = c@.subrange(p as int, b as int);
    assert(strip_v(t) == t);
    if p == b {
        return None;
    }
    let x = c[p] as u32;
    if !(48 <= x && x <= 57) {
        return None;
    }
    let mut has_dot = false;
    let mut k = p;
    while k < b
        invariant
            p <= k <= b,
            b <= c@.len(),
            t == c@.subrange(p as int, b as int),
            has_dot == c@.subrange(p as int, k as int).contains('.'),
        decreases b - k,
    {
        if c[k] == '.' {
            has_dot = true;
        }
        proof {
            let s0 = c@.subrange(p as int, k as int);
            let s1 = c@.subrange(p as int, k + 1);
            assert(s1 =~= s0.push(c@[k as int]));
            if s1.contains('.') && !s0.contains('.') {
                let j = choose|j: int| 0 <= j < s1.len() && s1[j] == '.';
                assert(j == s0.len());
            }
            if s0.contains('.') {
                let j = choose|j: int| 0 <= j < s0.len() && s0[j] == '.';
                assert(s1[j] == '.');
            }
            if c@[k as int] == '.' {
                assert(s1[s0.len() as int] == '.');
            }
        }
        k = k + 1;
    }
    if !has_dot {
        return None;
    }
    let mut q = b;
    while q > p && c[q - 1] == ','
        invariant
            p < q <= b,
            b <= c@.len(),
            strip_commas(t) == strip_commas(c@.subrange(p as int, q as int)),
            48 <= (c@[p as int] as u32) <= 57,
        decreases q,
    {
        assert(c@.subrange(p as int, q as int).drop_last() =~= c@.subrange(p as int, q - 1));
        q = q - 1;
    }
    assert(strip_commas(c@.subrange(p as int, q as int)) == c@.subrange(p as int, q as int));
    Some(output.substring_char(p, q).to_owned())
}

impl EnvProber {
    /// The version in the output of `<tool> --version`: the first
    /// whitespace-separated word that, without its leading `v`s, starts
    /// with a digit and holds a dot, given without those `v`s and without
    /// trailing commas. The tool id is not used.
    pub fn parse_version(id: &str, output: &str) -> (r: Option<String>)
        ensures
            match first_version(words(output@)) {
                Some(v) => r matches Some(x) && x@ == v,
                None => r is None,
            },
    {
        let c = chars_of(output);
        let n = c.len();
        let mut start: usize = 0;
        let mut i: usize = 0;
        assert(c@.skip(0) =~= c@);
        assert(c@.subrange(0, 0) =~= Seq::<char>::empty());
        while i < n
            invariant
                c@ == output@,
                n == c@.len(),
                start <= i <= n,
                first_version(words(output@)) == first_version(
                    word_list(c@.skip(i as int), c@.subrange(start as int, i as int)),
                ),
            decreases n - i,
        {
            let ghost s = c@.skip(i as int);
            let ghost cur = c@.subrange(start as int, i as int);
            assert(s[0] == c@[i as int]);
            assert(s.drop_first() =~= c@.skip(i + 1));
            if white_space(c[i]) {
                if start < i {
                    proof {
                        lemma_first_version_cons(cur, word_list(s.drop_first(), Seq::empty()));
                    }
                    let found = check_word(output, &c, start, i);
                    if found.is_some() {
                        return found;
                    }
                } else {
                    assert(Seq::<Seq<char>>::empty() + word_list(s.drop_first(), Seq::empty()) =~= word_list(s.drop_first(), Seq::empty()));
                }
                start = i + 1;
                assert(c@.subrange(start as int, i + 1) =~= Seq::<char>::empty());
            } else {
                assert(cur.push(c@[i as int]) =~= c@.subrange(start as int, i + 1));
            }
            i = i + 1;
        }
        assert(c@.skip(n as int) =~= Seq::<char>::empty());
        if start < n {
            proof {
                let cur = c@.subrange(start as int, n as int);
                lemma_first_version_cons(cur, Seq::empty());
                assert(seq![cur] + Seq::<Seq<char>>::empty() =~= seq![cur]);
            }
            check_word(output, &c, start, n)
        } else {
            None
        }
    }
}


/// What looking for one command found.
#[derive(Debug)]
pub enum ProbeOutcome {
    /// The command is not on the search path.
    NotFound,
    /// The command is at `path`; `output` is the text that
    /// `<command> --version` printed (standard output, then standard error),
    /// or, when it could not run, the error's text.
    Found { command: String, path: String, output: Result<String, String> },
}

/// The index of the first outcome that found its command, or -1.
pub open spec fn first_found(os: Seq<ProbeOutcome>) -> int
    decreases os.len(),
{
    if os.len() == 0 {
        -1
    } else if os[0] is Found {
        0
    } else {
        let k = first_found(os.drop_first());
        if k < 0 {
            -1
        } else {
            k + 1
        }
    }
}

/// The fields every probed item shares: its id, display name, install hint
/// and check time, and no required version.
pub open spec fn item_base(item: EnvItem, id: Seq<char>, now: u64) -> bool {
    &&& item.id@ == id
    &&& item.name@ == display_name(id)
    &&& item.required_version is None
    &&& item.install_hint matches Some(h) && hint_matches(h, id)
    &&& item.checked_at == now
}

/// The item of a tool that was not found.
pub open spec fn is_missing_item(item: EnvItem, id: Seq<char>, now: u64) -> bool {
    &&& item_base(item, id, now)
    &&& item.status is Missing
    &&& item.version is None
    &&& item.path is None
}

/// The item of a tool found at `path`: available, with the version its
/// output shows, when `--version` ran; an error naming the command when it
/// could not run.
pub open spec fn is_found_item(
    item: EnvItem,
    id: Seq<char>,
    command: Seq<char>,
    path: Seq<char>,
    output: Result<String, String>,
    now: u64,
) -> bool {
    &&& item_base(item, id, now)
    &&& item.path matches Some(p) && p@ == path
    &&& match output {
        Ok(text) => {
            &&& item.status is Available
            &&& match first_version(words(text@)) {
                Some(v) => item.version matches Some(x) && x@ == v,
                None => item.version is None,
            }
        },
        Err(e) => {
            &&& item.status matches EnvStatus::Error { message } && message@ == "Failed to run "@
                + command + " --version: "@ + e@
            &&& item.version is None
        },
    }
}

/// The item of tool `id` probed with `outcomes` at `now`: the first
/// command found gives the item; when none was found the tool is missing.
pub open spec fn is_probe_of(item: EnvItem, id: Seq<char>, outcomes: Seq<ProbeOutcome>, now: u64) -> bool {
    let k = first_found(outcomes);
    if k >= 0 {
        outcomes[k] matches ProbeOutcome::Found { command, path, output }
            && is_found_item(item, id, command@, path@, output, now)
    } else {
        is_missing_item(item, id, now)
    }
}

/// The characters of an optional string.
pub open spec fn opt_view(o: Option<String>) -> Option<Seq<char>> {
    match o {
        Some(x) => Some(x@),
        None => None,
    }
}

/// A status as plain values: its variant and the characters of its texts.
pub open spec fn status_view(st: EnvStatus) -> (nat, Seq<char>, Seq<char>) {
    match st {
        EnvStatus::Available => (0, Seq::empty(), Seq::empty()),
        EnvStatus::Missing => (1, Seq::empty(), Seq::empty()),
        EnvStatus::VersionMismatch { found, required } => (2, found@, required@),
        EnvStatus::Error { message } => (3, message@, Seq::empty()),
        EnvStatus::Checking => (4, Seq::empty(), Seq::empty()),
    }
}

/// Two items hold the same characters and numbers in every field.
pub open spec fn same_item(a: EnvItem, b: EnvItem) -> bool {
    &&& a.id@ == b.id@
    &&& a.name@ == b.name@
    &&& status_view(a.status) == status_view(b.status)
    &&& opt_view(a.version) == opt_view(b.version)
    &&& opt_view(a.required_version) == opt_view(b.required_version)
    &&& opt_view(a.path) == opt_view(b.path)
    &&& match (a.install_hint, b.install_hint) {
        (Some(x), Some(y)) => opt_view(x.macos) == opt_view(y.macos) && opt_view(x.linux)
            == opt_view(y.linux) && opt_view(x.windows) == opt_view(y.windows),
        (None, None) => true,
        _ => false,
    }
    &&& a.checked_at == b.checked_at
}

/// Probing is determined by what was found: two items probed for the same
/// tool, with the same outcomes and at the same time, are the same. So each
/// item of `probe_all` is what `probe` gives for that tool and its outcomes.
pub proof fn law_probe_is_determined(
    a: EnvItem,
    b: EnvItem,
    id: Seq<char>,
    outcomes: Seq<ProbeOutcome>,
    now: u64,
)
    requires
        is_probe_of(a, id, outcomes, now),
        is_probe_of(b, id, outcomes, now),
    ensures
        same_item(a, b),
{
}

/// The k-th list of outcomes, or no outcome when there are fewer lists.
pub open spec fn outcomes_of(lists: Seq<Vec<ProbeOutcome>>, k: int) -> Seq<ProbeOutcome> {
    if 0 <= k < lists.len() {
        lists[k]@
    } else {
        Seq::empty()
    }
}

/// The index of the first item with the given id, or -1.
pub open spec fn first_with_id(items: Seq<EnvItem>, id: Seq<char>) -> int
    decreases items.len(),
{
    if items.len() == 0 {
        -1
    } else if items[0].id@ == id {
        0
    } else {
        let k = first_with_id(items.drop_first(), id);
        if k < 0 {
            -1
        } else {
            k + 1
        }
    }
}

proof fn lemma_first_found(os: Seq<ProbeOutcome>)
    ensures
        -1 <= first_found(os) < os.len(),
        first_found(os) >= 0 ==> os[first_found(os)] is Found,
        forall|k: int| 0 <= k < os.len() && (first_found(os) < 0 || k < first_found(os)) ==> !(os[k] is Found),
    decreases os.len(),
{
    if os.len() > 0 && !(os[0] is Found) {
        lemma_first_found(os.drop_first());
        assert forall|k: int| 0 <= k < os.len() && (first_found(os) < 0 || k < first_found(os)) implies !(os[k] is Found) by {
            if k > 0 {
                assert(os.drop_first()[k - 1] == os[k]);
            }
        }
    }
}

proof fn lemma_first_with_id(items: Seq<EnvItem>, id: Seq<char>)
    ensures
        -1 <= first_with_id(items, id) < items.len(),
        first_with_id(items, id) >= 0 ==> items[first_with_id(items, id)].id@ == id,
        forall|k: int|
            0 <= k < items.len() && (first_with_id(items, id) < 0 || k < first_with_id(items, id)) ==> items[k].id@ != id,
    decreases items.len(),
{
    if items.len() > 0 && items[0].id@ != id {
        lemma_first_with_id(items.drop_first(), id);
        assert forall|k: int|
            0 <= k < items.len() && (first_with_id(items, id) < 0 || k < first_with_id(items, id)) implies items[k].id@ != id by {
            if k > 0 {
                assert(items.drop_first()[k - 1] == items[k]);
            }
        }
    }
}

proof fn lemma_first_with_id_at(items: Seq<EnvItem>, id: Seq<char>, j: int)
    requires
        0 <= j < items.len(),
        items[j].id@ == id,
        forall|k: int| 0 <= k < j ==> items[k].id@ != id,
    ensures
        first_with_id(items, id) == j,
    decreases j,
{
    if j > 0 {
        assert forall|k: int| 0 <= k < j - 1 implies items.drop_first()[k].id@ != id by {
            assert(items.drop_first()[k] == items[k + 1]);
        }
        lemma_first_with_id_at(items.drop_first(), id, j - 1);
    }
}

/// The cache after `update_cache` with `item`.
pub open spec fn cache_after(cache: Seq<EnvItem>, item: EnvItem) -> Seq<EnvItem> {
    let k = first_with_id(cache, item.id@);
    if k >= 0 {
        cache.update(k, item)
    } else {
        cache.push(item)
    }
}

/// After an item is put into the cache, looking its id up in the cache
/// finds that item; no other tool's entry changes, and the cache grows only
/// when the id was not there yet.
pub proof fn law_cache_holds_latest(cache: Seq<EnvItem>, item: EnvItem)
    ensures
        ({
            let c = cache_after(cache, item);
            let j = first_with_id(c, item.id@);
            &&& 0 <= j < c.len()
            &&& c[j] == item
            &&& c.len() == if first_with_id(cache, item.id@) >= 0 {
                cache.len()
            } else {
                cache.len() + 1
            }
            &&& forall|k: int| 0 <= k < cache.len() && cache[k].id@ != item.id@ ==> c[k] == cache[k]
        }),
{
    lemma_first_with_id(cache, item.id@);
    let k = first_with_id(cache, item.id@);
    let c = cache_after(cache, item);
    if k >= 0 {
        assert forall|m: int| 0 <= m < k implies c[m].id@ != item.id@ by {
            assert(c[m] == cache[m]);
        }
        lemma_first_with_id_at(c, item.id@, k);
    } else {
        assert forall|m: int| 0 <= m < cache.len() implies c[m].id@ != item.id@ by {
            assert(c[m] == cache[m]);
        }
        lemma_first_with_id_at(c, item.id@, cache.len() as int);
    }
}

impl EnvProber {
    /// The ids of every tool the prober supports.
    pub fn tool_ids() -> (r: Vec<&'static str>)
        ensures
            r@.map_values(|s: &str| s@) == seq!["node"@, "git"@, "python"@, "rustc"@, "docker"@],
    {
        let mut r: Vec<&'static str> = Vec::new();
        r.push("node");
        r.push("git");
        r.push("python");
        r.push("rustc");
        r.push("docker");
        assert(r@.map_values(|s: &str| s@) =~= seq!["node"@, "git"@, "python"@, "rustc"@, "docker"@]);
        r
    }

    /// The commands to look for, in order: `python3` then `python` for
    /// Python, the id itself for any other tool.
    pub fn probe_commands(id: &str) -> (r: Vec<String>)
        ensures
            r@.map_values(|s: String| s@) == if id@ == "python"@ {
                seq!["python3"@, "python"@]
            } else {
                seq![id@]
            },
    {
        let mut r: Vec<String> = Vec::new();
        if str_eq(id, "python") {
            r.push("python3".to_owned());
            r.push("python".to_owned());
            assert(r@.map_values(|s: String| s@) =~= seq!["python3"@, "python"@]);
        } else {
            r.push(id.to_owned());
            assert(r@.map_values(|s: String| s@) =~= seq![id@]);
        }
        r
    }

    fn missing(id: &str, now: u64) -> (r: EnvItem)
        ensures
            is_missing_item(r, id@, now),
    {
        EnvItem {
            id: id.to_owned(),
            name: display_name_for(id).to_owned(),
            status: EnvStatus::Missing,
            version: None,
            required_version: None,
            path: None,
            install_hint: Some(install_hint_for(id)),
            checked_at: now,
        }
    }

    fn found(id: &str, command: &String, path: &String, output: &Result<String, String>, now: u64) -> (r:
        EnvItem)
        ensures
            is_found_item(r, id@, command@, path@, *output, now),
    {
        let (status, version) = match output {
            Ok(text) => (EnvStatus::Available, Self::parse_version(id, text.as_str())),
            Err(e) => (
                EnvStatus::Error {
                    message: "Failed to run ".to_owned().concat(command.as_str()).concat(
                        " --version: ",
                    ).concat(e.as_str()),
                },
                None,
            ),
        };
        EnvItem {
            id: id.to_owned(),
            name: display_name_for(id).to_owned(),
            status,
            version,
            required_version: None,
            path: Some(path.clone()),
            install_hint: Some(install_hint_for(id)),
            checked_at: now,
        }
    }

    /// The item for tool `id` checked at `now`, given what looking for each
    /// of its commands found, in order: the first command found gives the
    /// item; when none was found the tool is missing.
    pub fn probe(id: &str, outcomes: &Vec<ProbeOutcome>, now: u64) -> (r: EnvItem)
        ensures
            is_probe_of(r, id@, outcomes@, now),
    {
        proof {
            lemma_first_found(outcomes@);
        }
        let mut i: usize = 0;
        while i < outcomes.len()
            invariant
                i <= outcomes@.len(),
                forall|k: int| 0 <= k < i ==> !(outcomes@[k] is Found),
            decreases outcomes@.len() - i,
        {
            match &outcomes[i] {
                ProbeOutcome::Found { command, path, output } => {
                    proof {
                        lemma_first_found(outcomes@);
                        let f = first_found(outcomes@);
                        assert(f == i as int);
                    }
                    return Self::found(id, command, path, output, now);
                },
                ProbeOutcome::NotFound => {},
            }
            i = i + 1;
        }
        Self::missing(id, now)
    }

    /// The items of every supported tool, in the order of `tool_ids`,
    /// checked at `now`: the item of the k-th tool is probed with the k-th
    /// list of outcomes, or with none (the tool was not found) when fewer
    /// lists were given.
    pub fn probe_all(outcomes: &Vec<Vec<ProbeOutcome>>, now: u64) -> (r: Vec<EnvItem>)
        ensures
            r@.len() == 5,
            forall|k: int|
                0 <= k < 5 ==> is_probe_of(
                    #[trigger] r@[k],
                    seq!["node"@, "git"@, "python"@, "rustc"@, "docker"@][k],
                    outcomes_of(outcomes@, k),
                    now,
                ),
    {
        let ids = Self::tool_ids();
        let ghost names = seq!["node"@, "git"@, "python"@, "rustc"@, "docker"@];
        assert(ids@.map_values(|s: &str| s@) == names);
        let none: Vec<ProbeOutcome> = Vec::new();
        let mut r: Vec<EnvItem> = Vec::new();
        let mut k: usize = 0;
        while k < ids.len()
            invariant
                ids@.len() == 5,
                ids@.map_values(|s: &str| s@) == names,
                none@.len() == 0,
                k <= 5,
                r@.len() == k,
                forall|j: int|
                    0 <= j < k ==> is_probe_of(#[trigger] r@[j], names[j], outcomes_of(outcomes@, j), now),
            decreases 5 - k,
        {
            assert(ids@[k as int]@ == names[k as int]);
            let item = if k < outcomes.len() {
                Self::probe(ids[k], &outcomes[k], now)
            } else {
                proof {
                    assert(none@ =~= Seq::<ProbeOutcome>::empty());
                }
                Self::probe(ids[k], &none, now)
            };
            r.push(item);
            k = k + 1;
        }
        r
    }

    /// Put a freshly probed item into the cache: it replaces the first
    /// cached item with the same id, or is added at the end.
    pub fn update_cache(cache: &mut Vec<EnvItem>, item: EnvItem)
        ensures
            final(cache)@ == cache_after(old(cache)@, item),
    {
        proof {
            lemma_first_with_id(cache@, item.id@);
        }
        let mut i: usize = 0;
        while i < cache.len()
            invariant
                i <= cache@.len(),
                cache@ == old(cache)@,
                forall|k: int| 0 <= k < i ==> cache@[k].id@ != item.id@,
            decreases cache@.len() - i,
        {
            if str_eq(cache[i].id.as_str(), item.id.as_str()) {
                proof {
                    lemma_first_with_id(old(cache)@, item.id@);
                    assert(first_with_id(old(cache)@, item.id@) == i as int);
                }
                cache.set(i, item);
                return;
            }
            i = i + 1;
        }
        cache.push(item);
    }
}

} // verus!
