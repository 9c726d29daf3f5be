//! Android tool selection: explicitly configured tools must exist, and
//! otherwise the newest Build Tools directory of the SDK is used.
use vstd::prelude::*;
use crate::order::{
    lemma_lex_irreflexive, lemma_lex_total, lemma_lex_transitive, lex_less, numbers,
    numbers_less_exec,
};
use crate::text::{
    all_digits, chars_of, digits_value, is_ascii_digit, lemma_digits_value_nonneg, separator,
    split_chars, split_spec, string_of,
};

verus! {

/// A tool path given in the configuration, and whether a file is there.
#[derive(Debug, Clone, PartialEq, Eq)]
pub struct ExplicitTool {
    pub path: String,
    pub is_file: bool,
}

/// The Android build tools used for aligning and signing.
#[derive(Debug, Clone, PartialEq, Eq)]
pub struct BuildTools {
    pub apksigner: String,
    pub zipalign: String,
}

/// A configured tool that is missing.
#[derive(Debug, Clone, PartialEq, Eq)]
pub enum ToolError {
    /// No file at this configured path.
    NotFound(String),
}

/// Where a tool is: the configured path if a file is there (`Err` with that
/// path if not), else `fallback`.
pub open spec fn tool_outcome(explicit: Option<&ExplicitTool>, fallback: Seq<char>) -> Result<Seq<char>, Seq<char>> {
    match explicit {
        Some(t) => if t.is_file {
            Ok(t.path@)
        } else {
            Err(t.path@)
        },
        None => Ok(fallback),
    }
}

/// Both tools, zipalign checked first.
pub open spec fn tools_outcome(
    zipalign: Result<Seq<char>, Seq<char>>,
    apksigner: Result<Seq<char>, Seq<char>>,
) -> Result<(Seq<char>, Seq<char>), Seq<char>> {
    match zipalign {
        Err(p) => Err(p),
        Ok(z) => match apksigner {
            Err(p) => Err(p),
            Ok(a) => Ok((z, a)),
        },
    }
}

/// `r` is the outcome `o`.
pub open spec fn is_tools_outcome(r: Result<BuildTools, ToolError>, o: Result<(Seq<char>, Seq<char>), Seq<char>>) -> bool {
    match o {
        Ok((z, a)) => r matches Ok(t) && t.zipalign@ == z && t.apksigner@ == a,
        Err(p) => r matches Err(ToolError::NotFound(q)) && q@ == p,
    }
}

/// The path of a tool: the configured one if a file is there (an error if
/// not), else `default`.
pub fn tool_path(explicit: Option<&ExplicitTool>, default: &str) -> (r: Result<String, ToolError>)
    ensures
        match tool_outcome(explicit, default@) {
            Ok(p) => r matches Ok(q) && q@ == p,
            Err(p) => r matches Err(ToolError::NotFound(q)) && q@ == p,
        },
{
    match explicit {
        Some(t) => if t.is_file {
            Ok(t.path.clone())
        } else {
            Err(ToolError::NotFound(t.path.clone()))
        },
        None => Ok(string_of(default)),
    }
}

/// When both tools are configured, they are used without looking at the
/// SDK (`None` when either is not configured).
pub fn explicit_build_tools(zipalign: Option<&ExplicitTool>, apksigner: Option<&ExplicitTool>) -> (r: Option<Result<BuildTools, ToolError>>)
    ensures
        r is None <==> (zipalign is None || apksigner is None),
        r matches Some(t) ==> is_tools_outcome(
            t,
            tools_outcome(tool_outcome(zipalign, Seq::empty()), tool_outcome(apksigner, Seq::empty())),
        ),
{
    if zipalign.is_none() || apksigner.is_none() {
        return None;
    }
    let zipalign_path = match tool_path(zipalign, "zipalign.exe") {
        Ok(p) => p,
        Err(e) => return Some(Err(e)),
    };
    let apksigner_path = match tool_path(apksigner, "apksigner.bat") {
        Ok(p) => p,
        Err(e) => return Some(Err(e)),
    };
    Some(Ok(BuildTools { zipalign: zipalign_path, apksigner: apksigner_path }))
}

/// With the SDK's Build Tools directory found, each tool is the configured
/// one (which must exist) or the one in that directory.
pub fn sdk_build_tools(
    zipalign: Option<&ExplicitTool>,
    apksigner: Option<&ExplicitTool>,
    sdk_zipalign: String,
    sdk_apksigner: String,
) -> (r: Result<BuildTools, ToolError>)
    ensures
        is_tools_outcome(
            r,
            tools_outcome(tool_outcome(zipalign, sdk_zipalign@), tool_outcome(apksigner, sdk_apksigner@)),
        ),
{
    let zipalign_path = match zipalign {
        Some(_) => match tool_path(zipalign, "zipalign.exe") {
            Ok(p) => p,
            Err(e) => return Err(e),
        },
        None => sdk_zipalign,
    };
    let apksigner_path = match apksigner {
        Some(_) => match tool_path(apksigner, "apksigner.bat") {
            Ok(p) => p,
            Err(e) => return Err(e),
        },
        None => sdk_apksigner,
    };
    Ok(BuildTools { zipalign: zipalign_path, apksigner: apksigner_path })
}

} // verus!

verus! {

/// `p` read as a `u32` the way `str::parse::<u32>` reads it: an optional
/// leading `'+'`, then one or more ASCII digits whose value fits.
pub open spec fn parse_u32_spec(p: Seq<char>) -> Option<u32> {
    let d = if p.len() > 0 && p[0] == '+' {
        p.drop_first()
    } else {
        p
    };
    if d.len() > 0 && all_digits(d) && digits_value(d) <= u32::MAX {
        Some(digits_value(d) as u32)
    } else {
        None
    }
}

/// Reads a number as `str::parse::<u32>` does.
pub fn parse_u32(p: &Vec<char>) -> (r: Option<u32>)
    ensures
        r == parse_u32_spec(p@),
{
    let start: usize = if p.len() > 0 && p[0] == '+' {
        1
    } else {
        0
    };
    let ghost d = if p@.len() > 0 && p@[0] == '+' {
        p@.drop_first()
    } else {
        p@
    };
    assert(d =~= p@.skip(start as int));
    if p.len() == start {
        return None;
    }
    let mut value: u64 = 0;
    let mut overflow = false;
    let mut i: usize = start;
    while i < p.len()
        invariant
            start <= i <= p.len(),
            d == p@.skip(start as int),
            d == (if p@.len() > 0 && p@[0] == '+' {
                p@.drop_first()
            } else {
                p@
            }),
            all_digits(d.take(i - start)),
            !overflow ==> value == digits_value(d.take(i - start)) && value <= u32::MAX,
            overflow ==> digits_value(d.take(i - start)) > u32::MAX,
        decreases p.len() - i,
    {
        let c = p[i];
        if !(c >= '0' && c <= '9') {
            assert(d[i - start] == c);
            assert(!is_ascii_digit(d[i - start]));
            assert(!all_digits(d));
            return None;
        }
        let ghost before = d.take(i - start);
        let ghost after = d.take(i - start + 1);
        proof {
            assert(after.drop_last() =~= before);
            assert(after.last() == c);
            assert forall|k: int| 0 <= k < after.len() implies is_ascii_digit(#[trigger] after[k]) by {
                if k < before.len() {
                    assert(after[k] == before[k]);
                }
            }
            lemma_digits_value_nonneg(before);
        }
        if !overflow {
            value = value * 10 + (c as u32 - 48) as u64;
            if value > 0xffff_ffff {
                overflow = true;
            }
        }
        i = i + 1;
    }
    assert(d.take(d.len() as int) =~= d);
    if overflow {
        None
    } else {
        Some(value as u32)
    }
}

/// Position of the first `'-'` at or after position `k`.
pub open spec fn first_dash_from(s: Seq<char>, k: int) -> Option<int>
    decreases s.len() - k,
{
    if k < 0 || k >= s.len() {
        None
    } else if s[k] == '-' {
        Some(k)
    } else {
        first_dash_from(s, k + 1)
    }
}

/// The release part of a Build Tools directory name: the text before the
/// first `'-'`, or the whole name.
pub open spec fn release_part(name: Seq<char>) -> Seq<char> {
    match first_dash_from(name, 0) {
        Some(d) => name.subrange(0, d),
        None => name,
    }
}

/// The pre-release suffix of a Build Tools directory name (such as `rc1` in
/// `34.0.0-rc1`): the text after the first `'-'`, if there is one.
pub open spec fn pre_release_part(name: Seq<char>) -> Option<Seq<char>> {
    match first_dash_from(name, 0) {
        Some(d) => Some(name.subrange(d + 1, name.len() as int)),
        None => None,
    }
}

/// The parts of `s` between separators, each read as a number, 0 where a
/// part is not one.
pub open spec fn part_numbers_spec(s: Seq<char>, dash: bool) -> Seq<u32> {
    split_spec(s, separator(dash)).map_values(
        |p: Seq<char>|
            match parse_u32_spec(p) {
                Some(v) => v,
                None => 0u32,
            },
    )
}

/// The numbers of the release part, split at `'.'`.
pub open spec fn release_numbers(name: Seq<char>) -> Seq<u32> {
    part_numbers_spec(release_part(name), false)
}

/// The numbers of the pre-release suffix, split at `'.'` and `'-'`, if there
/// is a suffix.
pub open spec fn pre_release_numbers(name: Seq<char>) -> Option<Seq<u32>> {
    match pre_release_part(name) {
        Some(p) => Some(part_numbers_spec(p, true)),
        None => None,
    }
}

/// What versions are compared by: the release numbers, and the numbers of
/// the pre-release suffix.
pub open spec fn version_rank(name: Seq<char>) -> (Seq<int>, Option<Seq<int>>) {
    (
        numbers(release_numbers(name)),
        match pre_release_numbers(name) {
            Some(p) => Some(numbers(p)),
            None => None,
        },
    )
}

/// Rank `a` is older than rank `b`: lower release numbers (compared part by
/// part), or equal release numbers where `a` is a pre-release and `b` is the
/// release, or both pre-releases with lower suffix numbers.
pub open spec fn rank_less(a: (Seq<int>, Option<Seq<int>>), b: (Seq<int>, Option<Seq<int>>)) -> bool {
    ||| lex_less(a.0, b.0)
    ||| (a.0 == b.0 && match (a.1, b.1) {
        (Some(_), None) => true,
        (Some(x), Some(y)) => lex_less(x, y),
        _ => false,
    })
}

/// Build Tools version `a` is older than version `b`.
pub open spec fn version_older(a: Seq<char>, b: Seq<char>) -> bool {
    rank_less(version_rank(a), version_rank(b))
}

pub proof fn lemma_rank_irreflexive(a: (Seq<int>, Option<Seq<int>>))
    ensures
        !rank_less(a, a),
{
    lemma_lex_irreflexive(a.0);
    if let Some(x) = a.1 {
        lemma_lex_irreflexive(x);
    }
}

pub proof fn lemma_rank_transitive(
    a: (Seq<int>, Option<Seq<int>>),
    b: (Seq<int>, Option<Seq<int>>),
    c: (Seq<int>, Option<Seq<int>>),
)
    requires
        rank_less(a, b),
        rank_less(b, c),
    ensures
        rank_less(a, c),
{
    if lex_less(a.0, b.0) && lex_less(b.0, c.0) {
        lemma_lex_transitive(a.0, b.0, c.0);
    } else if a.0 == b.0 && b.0 == c.0 {
        if let (Some(x), Some(y), Some(z)) = (a.1, b.1, c.1) {
            lemma_lex_transitive(x, y, z);
        }
    }
}

pub proof fn lemma_rank_total(a: (Seq<int>, Option<Seq<int>>), b: (Seq<int>, Option<Seq<int>>))
    ensures
        rank_less(a, b) || rank_less(b, a) || a == b,
{
    lemma_lex_total(a.0, b.0);
    if let (Some(x), Some(y)) = (a.1, b.1) {
        lemma_lex_total(x, y);
    }
}

/// A version key as the library holds it.
#[derive(Debug, Clone, PartialEq, Eq)]
pub struct VersionKey {
    pub release: Vec<u32>,
    pub pre_release: Option<Vec<u32>>,
}

/// The rank a key stands for.
pub open spec fn key_rank(k: VersionKey) -> (Seq<int>, Option<Seq<int>>) {
    (
        numbers(k.release@),
        match k.pre_release {
            Some(p) => Some(numbers(p@)),
            None => None,
        },
    )
}

/// The parts of `s` between separators (`'.'`, and with `dash` also
/// `'-'`), each read as a number, 0 where a part is not one.
pub fn part_numbers(s: &Vec<char>, dash: bool) -> (nums: Vec<u32>)
    ensures
        nums@ == part_numbers_spec(s@, dash),
{
    let parts = split_chars(s, dash);
    let ghost pieces = split_spec(s@, separator(dash));
    let mut nums: Vec<u32> = Vec::new();
    let mut k: usize = 0;
    while k < parts.len()
        invariant
            pieces == split_spec(s@, separator(dash)),
            parts@.len() == pieces.len(),
            forall|m: int| 0 <= m < parts@.len() ==> #[trigger] parts@[m]@ == pieces[m],
            k <= parts.len(),
            nums@.len() == k,
            forall|m: int|
                0 <= m < k ==> #[trigger] nums@[m] == (match parse_u32_spec(pieces[m]) {
                    Some(v) => v,
                    None => 0u32,
                }),
        decreases parts.len() - k,
    {
        let v = match parse_u32(&parts[k]) {
            Some(v) => v,
            None => 0,
        };
        nums.push(v);
        k = k + 1;
    }
    assert(nums@ =~= part_numbers_spec(s@, dash));
    nums
}

/// The version key of a Build Tools directory name.
pub fn version_key(name: &str) -> (key: VersionKey)
    ensures
        key.release@ == release_numbers(name@),
        match pre_release_numbers(name@) {
            Some(p) => key.pre_release matches Some(q) && q@ == p,
            None => key.pre_release is None,
        },
        key_rank(key) == version_rank(name@),
{
    let cs = chars_of(name);
    let mut dash: usize = 0;
    while dash < cs.len() && cs[dash] != '-'
        invariant
            cs@ == name@,
            dash <= cs.len(),
            first_dash_from(name@, 0) == first_dash_from(name@, dash as int),
        decreases cs.len() - dash,
    {
        dash = dash + 1;
    }
    let mut release: Vec<char> = Vec::new();
    let mut i: usize = 0;
    while i < dash
        invariant
            dash <= cs.len(),
            i <= dash,
            release@ == cs@.subrange(0, i as int),
        decreases dash - i,
    {
        release.push(cs[i]);
        i = i + 1;
        assert(release@ =~= cs@.subrange(0, i as int));
    }
    let pre_release: Option<Vec<char>> = if dash < cs.len() {
        let mut p: Vec<char> = Vec::new();
        let mut j: usize = dash + 1;
        while j < cs.len()
            invariant
                dash < j <= cs.len(),
                p@ == cs@.subrange(dash + 1, j as int),
            decreases cs.len() - j,
        {
            p.push(cs[j]);
            j = j + 1;
            assert(p@ =~= cs@.subrange(dash + 1, j as int));
        }
        Some(p)
    } else {
        assert(cs@.subrange(0, dash as int) =~= cs@);
        None
    };
    assert(release@ == release_part(name@));
    let nums = part_numbers(&release, false);
    let pre_release = match pre_release {
        Some(p) => Some(part_numbers(&p, true)),
        None => None,
    };
    VersionKey { release: nums, pre_release }
}

/// Whether version key `a` is older than version key `b`.
pub fn version_older_exec(a: &VersionKey, b: &VersionKey) -> (r: bool)
    ensures
        r == rank_less(key_rank(*a), key_rank(*b)),
{
    if numbers_less_exec(&a.release, &b.release) {
        return true;
    }
    if numbers_less_exec(&b.release, &a.release) {
        proof {
            lemma_lex_irreflexive(numbers(a.release@));
            if lex_less(numbers(a.release@), numbers(b.release@)) {
                lemma_lex_transitive(numbers(b.release@), numbers(a.release@), numbers(b.release@));
            }
        }
        return false;
    }
    proof {
        lemma_lex_total(numbers(a.release@), numbers(b.release@));
    }
    match (&a.pre_release, &b.pre_release) {
        (Some(_), None) => true,
        (Some(x), Some(y)) => numbers_less_exec(x, y),
        _ => false,
    }
}

/// Position `k` holds the newest version of `names`, and the last one when
/// several are equally new (the choice of `Iterator::max_by`).
pub open spec fn newest_at(names: Seq<Seq<char>>, k: int) -> bool {
    &&& 0 <= k < names.len()
    &&& forall|j: int|
        0 <= j < names.len() ==> !version_older(names[k], #[trigger] names[j])
    &&& forall|j: int| k < j < names.len() ==> version_older(#[trigger] names[j], names[k])
}

/// Of the names of the Build Tools directories that hold both tools, the
/// position of the newest version (the last of equally new ones), if any.
pub fn newest_version(names: &Vec<String>) -> (r: Option<usize>)
    ensures
        r is None <==> names@.len() == 0,
        r matches Some(k) ==> newest_at(crate::archive::texts(names@), k as int),
{
    let ghost ns = crate::archive::texts(names@);
    if names.len() == 0 {
        return None;
    }
    let mut keys: Vec<VersionKey> = Vec::new();
    let mut i: usize = 0;
    while i < names.len()
        invariant
            ns == crate::archive::texts(names@),
            i <= names.len(),
            keys@.len() == i,
            forall|k: int| 0 <= k < i ==> #[trigger] key_rank(keys@[k]) == version_rank(ns[k]),
        decreases names.len() - i,
    {
        keys.push(version_key(names[i].as_str()));
        i = i + 1;
    }
    let mut best: usize = 0;
    let mut j: usize = 1;
    proof {
        lemma_rank_irreflexive(version_rank(ns[0]));
    }
    while j < names.len()
        invariant
            ns == crate::archive::texts(names@),
            ns.len() == names@.len(),
            keys@.len() == names@.len(),
            forall|k: int|
                0 <= k < names@.len() ==> #[trigger] key_rank(keys@[k]) == version_rank(ns[k]),
            1 <= j <= names.len(),
            best < j,
            forall|k: int| 0 <= k < j ==> !version_older(ns[best as int], #[trigger] ns[k]),
            forall|k: int| best < k < j ==> version_older(#[trigger] ns[k], ns[best as int]),
        decreases names.len() - j,
    {
        let ghost kb = version_rank(ns[best as int]);
        let ghost kj = version_rank(ns[j as int]);
        assert(key_rank(keys@[j as int]) == kj);
        assert(key_rank(keys@[best as int]) == kb);
        if !version_older_exec(&keys[j], &keys[best]) {
            proof {
                lemma_rank_total(kj, kb);
                assert forall|k: int| 0 <= k < j + 1 implies !version_older(
                    ns[j as int],
                    #[trigger] ns[k],
                ) by {
                    let kk = version_rank(ns[k]);
                    if k < j {
                        if rank_less(kj, kk) {
                            if rank_less(kb, kj) {
                                lemma_rank_transitive(kb, kj, kk);
                            }
                        }
                    } else {
                        lemma_rank_irreflexive(kj);
                    }
                }
            }
            best = j;
        } else {
            proof {
                lemma_rank_irreflexive(kb);
                if rank_less(kb, kj) {
                    lemma_rank_transitive(kb, kj, kb);
                }
            }
        }
        j = j + 1;
    }
    Some(best)
}

} // verus!

verus! {

impl ToolError {
    /// The error, for the user.
    pub fn message(&self) -> (m: String)
        ensures
            match self {
                ToolError::NotFound(p) => m@ == "tool was not found at "@ + p@,
            },
    {
        match self {
            ToolError::NotFound(p) => {
                let mut m = string_of("tool was not found at ");
                m.append(p.as_str());
                m
            },
        }
    }
}

} // verus!

verus! {

proof fn lemma_first_dash_concat(r: Seq<char>, x: Seq<char>, k: int)
    requires
        0 <= k <= r.len(),
        forall|i: int| 0 <= i < r.len() ==> r[i] != '-',
    ensures
        first_dash_from(r + seq!['-'] + x, k) == Some(r.len() as int),
    decreases r.len() - k,
{
    let s = r + seq!['-'] + x;
    if k < r.len() {
        assert(s[k] == r[k]);
        lemma_first_dash_concat(r, x, k + 1);
    } else {
        assert(s[k] == '-');
    }
}

proof fn lemma_first_dash_none(r: Seq<char>, k: int)
    requires
        0 <= k,
        forall|i: int| 0 <= i < r.len() ==> r[i] != '-',
    ensures
        first_dash_from(r, k) is None,
    decreases r.len() - k,
{
    if k < r.len() {
        lemma_first_dash_none(r, k + 1);
    }
}

/// A release is newer than any of its pre-releases: for a release name `r`
/// (no `'-'`) and any suffix `x`, `r-x` is older than `r`.
pub proof fn law_release_outranks_pre_release(r: Seq<char>, x: Seq<char>)
    requires
        forall|i: int| 0 <= i < r.len() ==> r[i] != '-',
    ensures
        version_older(r + seq!['-'] + x, r),
{
    let s = r + seq!['-'] + x;
    lemma_first_dash_concat(r, x, 0);
    lemma_first_dash_none(r, 0);
    assert(s.subrange(0, r.len() as int) =~= r);
    assert(release_part(s) == release_part(r));
}

} // verus!
