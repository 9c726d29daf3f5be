//! Rewriting `assets/settings.txt`: the four endpoint settings are pointed at
//! the configured server and every other line is kept.
use vstd::prelude::*;
use crate::config::{cdn_url_spec, game_address_spec, sdk_url_spec, Endpoints};
use crate::text::{chars_of, lines_acc, lines_of, lines_spec, push_chars, strip_cr};

verus! {

/// The settings that are rewritten, in the order they are looked up.
#[derive(Debug, Clone, PartialEq, Eq)]
pub enum SettingKey {
    Cdn,
    IpAddress,
    Url,
    NoticeUrl,
}

/// The keys, in lookup order.
pub open spec fn setting_keys() -> Seq<Seq<char>> {
    seq!["cdn"@, "ipaddress"@, "url"@, "noticeURL"@]
}

/// The values written for the keys, in the same order.
pub open spec fn setting_values(e: Endpoints) -> Seq<Seq<char>> {
    seq![
        cdn_url_spec(e.host@, e.hotpatch_port),
        game_address_spec(e.host@, e.game_port),
        sdk_url_spec(e.host@, e.sdk_port),
        sdk_url_spec(e.host@, e.sdk_port),
    ]
}

/// The setting for the key at position `k` of the lookup order.
pub open spec fn setting_key_at(k: int) -> SettingKey {
    if k == 0 {
        SettingKey::Cdn
    } else if k == 1 {
        SettingKey::IpAddress
    } else if k == 2 {
        SettingKey::Url
    } else {
        SettingKey::NoticeUrl
    }
}

/// `line` assigns `key`: it starts with the key followed by `'='`.
pub open spec fn assigns(line: Seq<char>, key: Seq<char>) -> bool {
    &&& line.len() > key.len()
    &&& line.subrange(0, key.len() as int) == key
    &&& line[key.len() as int] == '='
}

/// The first key, from position `k` on, that `line` assigns.
pub open spec fn first_key_from(line: Seq<char>, k: int) -> Option<int>
    decreases 4 - k,
{
    if k >= 4 || k < 0 {
        None
    } else if assigns(line, setting_keys()[k]) {
        Some(k)
    } else {
        first_key_from(line, k + 1)
    }
}

/// The first key that `line` assigns.
pub open spec fn first_key(line: Seq<char>) -> Option<int> {
    first_key_from(line, 0)
}

/// `line` after rewriting: a line that assigns a key becomes `key=value`.
pub open spec fn patched_line(line: Seq<char>, e: Endpoints) -> Seq<char> {
    match first_key(line) {
        Some(k) => setting_keys()[k] + "="@ + setting_values(e)[k],
        None => line,
    }
}

/// Some line of `lines` assigns the key at position `k` (as its first key).
pub open spec fn key_found(lines: Seq<Seq<char>>, k: int) -> bool
    decreases lines.len(),
{
    lines.len() > 0 && (key_found(lines.drop_last(), k) || first_key(lines.last()) == Some(k))
}

/// The rewritten lines, each ended by `"\r\n"`.
pub open spec fn patched_text(lines: Seq<Seq<char>>, e: Endpoints) -> Seq<char>
    decreases lines.len(),
{
    if lines.len() == 0 {
        Seq::empty()
    } else {
        patched_text(lines.drop_last(), e) + patched_line(lines.last(), e) + "\r\n"@
    }
}

/// The first key, from position `k` on, that no line assigns.
pub open spec fn first_missing_from(lines: Seq<Seq<char>>, k: int) -> Option<int>
    decreases 4 - k,
{
    if k >= 4 || k < 0 {
        None
    } else if !key_found(lines, k) {
        Some(k)
    } else {
        first_missing_from(lines, k + 1)
    }
}

/// Outcome of rewriting the settings text `s`.
pub open spec fn patch_settings_spec(s: Seq<char>, e: Endpoints) -> Result<Seq<char>, SettingKey> {
    let lines = lines_spec(s);
    match first_missing_from(lines, 0) {
        Some(k) => Err(setting_key_at(k)),
        None => Ok(patched_text(lines, e)),
    }
}

} // verus!

verus! {

/// Why the settings could not be rewritten.
#[derive(Debug, Clone, PartialEq, Eq)]
pub enum SettingsError {
    /// No line assigns this setting.
    Missing(SettingKey),
}

fn key_text(k: usize) -> (t: &'static str)
    requires
        k < 4,
    ensures
        t@ == setting_keys()[k as int],
{
    if k == 0 {
        "cdn"
    } else if k == 1 {
        "ipaddress"
    } else if k == 2 {
        "url"
    } else {
        "noticeURL"
    }
}

fn key_at(k: usize) -> (key: SettingKey)
    requires
        k < 4,
    ensures
        key == setting_key_at(k as int),
{
    if k == 0 {
        SettingKey::Cdn
    } else if k == 1 {
        SettingKey::IpAddress
    } else if k == 2 {
        SettingKey::Url
    } else {
        SettingKey::NoticeUrl
    }
}

fn assigns_exec(line: &Vec<char>, key: &str) -> (b: bool)
    ensures
        b == assigns(line@, key@),
{
    let kc = chars_of(key);
    if line.len() <= kc.len() {
        return false;
    }
    let mut j: usize = 0;
    while j < kc.len()
        invariant
            kc@ == key@,
            j <= kc.len(),
            kc.len() < line.len(),
            forall|p: int| 0 <= p < j ==> line@[p] == kc@[p],
        decreases kc.len() - j,
    {
        if line[j] != kc[j] {
            assert(line@.subrange(0, kc.len() as int)[j as int] != key@[j as int]);
            return false;
        }
        j = j + 1;
    }
    assert(line@.subrange(0, kc.len() as int) =~= key@);
    line[kc.len()] == '='
}

fn first_key_exec(line: &Vec<char>) -> (r: Option<usize>)
    ensures
        match first_key(line@) {
            Some(k) => r == Some(k as usize) && 0 <= k < 4,
            None => r is None,
        },
{
    let mut k: usize = 0;
    while k < 4
        invariant
            k <= 4,
            first_key(line@) == first_key_from(line@, k as int),
        decreases 4 - k,
    {
        if assigns_exec(line, key_text(k)) {
            return Some(k);
        }
        k = k + 1;
    }
    None
}

/// Points the endpoint settings at the configured server: every line that
/// assigns `cdn`, `ipaddress`, `url` or `noticeURL` is replaced by
/// `key=value`, other lines are kept, and every line is ended by `"\r\n"`.
/// Fails, naming the first such key in that order, when no line assigns it.
pub fn patch_settings(settings: &str, endpoints: &Endpoints) -> (r: Result<String, SettingsError>)
    ensures
        match patch_settings_spec(settings@, *endpoints) {
            Ok(t) => r matches Ok(s) && s@ == t,
            Err(k) => r matches Err(SettingsError::Missing(m)) && m == k,
        },
{
    let values: Vec<String> = vec![
        endpoints.cdn_url(),
        endpoints.game_address(),
        endpoints.sdk_url(),
        endpoints.sdk_url(),
    ];
    let chars = chars_of(settings);
    let lines = lines_of(&chars);
    let ghost ls = lines_spec(settings@);
    let mut found: Vec<bool> = vec![false, false, false, false];
    let mut out = String::new();
    let mut i: usize = 0;
    while i < lines.len()
        invariant
            ls == lines_spec(settings@),
            lines@.len() == ls.len(),
            forall|j: int| 0 <= j < lines@.len() ==> #[trigger] lines@[j]@ == ls[j],
            values@.len() == 4,
            forall|k: int| 0 <= k < 4 ==> #[trigger] values@[k]@ == setting_values(*endpoints)[k],
            i <= lines.len(),
            found@.len() == 4,
            out@ == patched_text(ls.take(i as int), *endpoints),
            forall|k: int| 0 <= k < 4 ==> #[trigger] found@[k] == key_found(ls.take(i as int), k),
        decreases lines.len() - i,
    {
        let ghost before = ls.take(i as int);
        let ghost after = ls.take(i + 1);
        proof {
            assert(after.drop_last() =~= before);
            assert(after.last() == ls[i as int]);
            assert(lines@[i as int]@ == ls[i as int]);
        }
        let line = &lines[i];
        match first_key_exec(line) {
            Some(k) => {
                found.set(k, true);
                out.append(key_text(k));
                out.append("=");
                out.append(values[k].as_str());
            },
            None => {
                push_chars(&mut out, line);
            },
        }
        out.append("\r\n");
        i = i + 1;
        proof {
            assert(out@ =~= patched_text(after, *endpoints));
            assert forall|k: int| 0 <= k < 4 implies #[trigger] found@[k] == key_found(after, k) by {
                assert(key_found(after, k) == (key_found(before, k) || first_key(ls[i - 1]) == Some(
                    k,
                )));
            }
        }
    }
    proof {
        assert(ls.take(lines.len() as int) =~= ls);
    }
    let mut k: usize = 0;
    while k < 4
        invariant
            k <= 4,
            ls == lines_spec(settings@),
            found@.len() == 4,
            forall|j: int| 0 <= j < 4 ==> #[trigger] found@[j] == key_found(ls, j),
            first_missing_from(ls, 0) == first_missing_from(ls, k as int),
        decreases 4 - k,
    {
        if !found[k] {
            return Err(SettingsError::Missing(key_at(k)));
        }
        k = k + 1;
    }
    Ok(out)
}

} // verus!

verus! {

/// `s` holds no `'\n'`.
pub open spec fn no_newline(s: Seq<char>) -> bool {
    forall|i: int| 0 <= i < s.len() ==> s[i] != '\n'
}

/// Each of `m` followed by `"\r\n"`.
pub open spec fn crlf_text(m: Seq<Seq<char>>) -> Seq<char>
    decreases m.len(),
{
    if m.len() == 0 {
        Seq::empty()
    } else {
        crlf_text(m.drop_last()) + m.last() + "\r\n"@
    }
}

proof fn lemma_crlf_literal()
    ensures
        "\r\n"@ == seq!['\r', '\n'],
        "="@ == seq!['='],
{
    reveal_strlit("\r\n");
    reveal_strlit("=");
}

proof fn lemma_lines_acc_append(a: Seq<char>, b: Seq<char>)
    requires
        lines_acc(a).1.len() == 0,
        no_newline(b),
    ensures
        lines_acc(a + b) == (lines_acc(a).0, b),
    decreases b.len(),
{
    if b.len() == 0 {
        assert(a + b =~= a);
    } else {
        lemma_lines_acc_append(a, b.drop_last());
        assert((a + b).drop_last() =~= a + b.drop_last());
        assert((a + b).last() == b.last());
        assert(b.last() == b[b.len() - 1]);
        assert(b.drop_last().push(b.last()) =~= b);
    }
}

proof fn lemma_lines_of_crlf_text(m: Seq<Seq<char>>)
    requires
        forall|i: int| 0 <= i < m.len() ==> no_newline(#[trigger] m[i]),
    ensures
        lines_acc(crlf_text(m)) == (m, Seq::<char>::empty()),
        lines_spec(crlf_text(m)) == m,
    decreases m.len(),
{
    lemma_crlf_literal();
    if m.len() == 0 {
        assert(lines_acc(Seq::<char>::empty()) == (Seq::<Seq<char>>::empty(), Seq::<char>::empty()));
    } else {
        let init = m.drop_last();
        assert forall|i: int| 0 <= i < init.len() implies no_newline(#[trigger] init[i]) by {
            assert(init[i] == m[i]);
        }
        lemma_lines_of_crlf_text(init);
        let a = crlf_text(init);
        let l = m.last();
        assert(no_newline(m[m.len() - 1]));
        lemma_lines_acc_append(a, l);
        let al = a + l;
        let alr = al.push('\r');
        assert(crlf_text(m) =~= alr.push('\n'));
        assert(alr.drop_last() =~= al);
        assert(alr.push('\n').drop_last() =~= alr);
        assert(lines_acc(alr) == (init, l.push('\r')));
        assert(l.push('\r').drop_last() =~= l);
        assert(init.push(l) =~= m);
    }
}

proof fn lemma_lines_acc_no_newline(s: Seq<char>)
    ensures
        forall|i: int| 0 <= i < lines_acc(s).0.len() ==> no_newline(#[trigger] lines_acc(s).0[i]),
        no_newline(lines_acc(s).1),
    decreases s.len(),
{
    if s.len() > 0 {
        lemma_lines_acc_no_newline(s.drop_last());
        let (d, c) = lines_acc(s.drop_last());
        if s.last() == '\n' {
            assert forall|i: int| 0 <= i < d.push(strip_cr(c)).len() implies no_newline(
                #[trigger] d.push(strip_cr(c))[i],
            ) by {
                if i < d.len() {
                    assert(d.push(strip_cr(c))[i] == d[i]);
                } else {
                    assert(forall|j: int| 0 <= j < strip_cr(c).len() ==> strip_cr(c)[j] == c[j]);
                }
            }
        }
    }
}

/// Every line that `lines_spec` gives is free of `'\n'`.
pub proof fn lemma_lines_no_newline(s: Seq<char>)
    ensures
        forall|i: int| 0 <= i < lines_spec(s).len() ==> no_newline(#[trigger] lines_spec(s)[i]),
{
    lemma_lines_acc_no_newline(s);
    let (d, c) = lines_acc(s);
    if c.len() != 0 {
        assert forall|i: int| 0 <= i < d.push(c).len() implies no_newline(#[trigger] d.push(c)[i]) by {
            if i < d.len() {
                assert(d.push(c)[i] == d[i]);
            }
        }
    }
}

} // verus!

verus! {

/// Every line rewritten.
pub open spec fn patched_lines(lines: Seq<Seq<char>>, e: Endpoints) -> Seq<Seq<char>> {
    lines.map_values(|l: Seq<char>| patched_line(l, e))
}

proof fn lemma_key_literals()
    ensures
        setting_keys()[0] == seq!['c', 'd', 'n'],
        setting_keys()[1] == seq!['i', 'p', 'a', 'd', 'd', 'r', 'e', 's', 's'],
        setting_keys()[2] == seq!['u', 'r', 'l'],
        setting_keys()[3] == seq!['n', 'o', 't', 'i', 'c', 'e', 'U', 'R', 'L'],
{
    reveal_strlit("cdn");
    reveal_strlit("ipaddress");
    reveal_strlit("url");
    reveal_strlit("noticeURL");
    assert(setting_keys()[0] =~= seq!['c', 'd', 'n']);
    assert(setting_keys()[1] =~= seq!['i', 'p', 'a', 'd', 'd', 'r', 'e', 's', 's']);
    assert(setting_keys()[2] =~= seq!['u', 'r', 'l']);
    assert(setting_keys()[3] =~= seq!['n', 'o', 't', 'i', 'c', 'e', 'U', 'R', 'L']);
}

proof fn lemma_decimal_no_newline(n: nat)
    ensures
        no_newline(crate::text::decimal(n)),
    decreases n,
{
    if n >= 10 {
        lemma_decimal_no_newline(n / 10);
    }
    let d = crate::text::decimal(n);
    assert forall|i: int| 0 <= i < d.len() implies d[i] != '\n' by {
        if n >= 10 {
            if i < d.len() - 1 {
                assert(d[i] == crate::text::decimal(n / 10)[i]);
            } else {
                assert(d[i] == crate::text::digit_char(n % 10));
            }
        }
    }
}

proof fn lemma_values_no_newline(e: Endpoints)
    requires
        no_newline(e.host@),
    ensures
        forall|k: int| 0 <= k < 4 ==> no_newline(#[trigger] setting_values(e)[k]),
{
    reveal_strlit("http://");
    reveal_strlit(":");
    reveal_strlit("/prod/en/Android");
    lemma_decimal_no_newline(e.hotpatch_port as nat);
    lemma_decimal_no_newline(e.game_port as nat);
    lemma_decimal_no_newline(e.sdk_port as nat);
    assert(no_newline("http://"@));
    assert(no_newline(":"@));
    assert(no_newline("/prod/en/Android"@));
    assert forall|a: Seq<char>, b: Seq<char>|
        no_newline(a) && no_newline(b) implies #[trigger] no_newline(a + b) by {
        assert forall|i: int| 0 <= i < (a + b).len() implies (a + b)[i] != '\n' by {
            if i < a.len() {
                assert((a + b)[i] == a[i]);
            } else {
                assert((a + b)[i] == b[i - a.len()]);
            }
        }
    }
}

proof fn lemma_first_key_from_is(line: Seq<char>, m: int, k: int)
    requires
        0 <= m <= k < 4,
        assigns(line, setting_keys()[k]),
        forall|j: int| m <= j < k ==> !assigns(line, #[trigger] setting_keys()[j]),
    ensures
        first_key_from(line, m) == Some(k),
    decreases k - m,
{
    if m < k {
        lemma_first_key_from_is(line, m + 1, k);
    }
}

/// A rewritten line assigns the same key as the line it came from.
proof fn lemma_first_key_patched(line: Seq<char>, e: Endpoints)
    ensures
        first_key(patched_line(line, e)) == first_key(line),
        no_newline(line) && no_newline(e.host@) ==> no_newline(patched_line(line, e)),
{
    lemma_crlf_literal();
    match first_key(line) {
        None => {},
        Some(k) => {
            lemma_first_key_range(line, 0);
            lemma_key_literals();
            let key = setting_keys()[k];
            let p = key + "="@ + setting_values(e)[k];
            assert(p.subrange(0, key.len() as int) =~= key);
            assert(p[key.len() as int] == '=');
            assert forall|j: int| 0 <= j < k implies !assigns(p, #[trigger] setting_keys()[j]) by {
                assert(p[0] == key[0]);
                if assigns(p, setting_keys()[j]) {
                    assert(p.subrange(0, setting_keys()[j].len() as int)[0] == p[0]);
                }
            }
            lemma_first_key_from_is(p, 0, k);
            if no_newline(e.host@) {
                lemma_values_no_newline(e);
                assert(no_newline(setting_values(e)[k]));
                assert forall|i: int| 0 <= i < p.len() implies p[i] != '\n' by {
                    if i < key.len() {
                        assert(p[i] == key[i]);
                    } else if i > key.len() {
                        assert(p[i] == setting_values(e)[k][i - key.len() - 1]);
                    }
                }
            }
        },
    }
}

proof fn lemma_first_key_range(line: Seq<char>, m: int)
    requires
        0 <= m,
    ensures
        first_key_from(line, m) matches Some(k) ==> m <= k < 4 && assigns(line, setting_keys()[k]),
    decreases 4 - m,
{
    if m < 4 {
        lemma_first_key_range(line, m + 1);
    }
}

} // verus!

verus! {

proof fn lemma_patched_text_is_crlf(lines: Seq<Seq<char>>, e: Endpoints)
    ensures
        patched_text(lines, e) == crlf_text(patched_lines(lines, e)),
    decreases lines.len(),
{
    if lines.len() > 0 {
        lemma_patched_text_is_crlf(lines.drop_last(), e);
        assert(patched_lines(lines, e).drop_last() =~= patched_lines(lines.drop_last(), e));
    }
}

proof fn lemma_key_found_patched(lines: Seq<Seq<char>>, e: Endpoints, k: int)
    ensures
        key_found(patched_lines(lines, e), k) == key_found(lines, k),
    decreases lines.len(),
{
    if lines.len() > 0 {
        lemma_key_found_patched(lines.drop_last(), e, k);
        assert(patched_lines(lines, e).drop_last() =~= patched_lines(lines.drop_last(), e));
        lemma_first_key_patched(lines.last(), e);
    }
}

proof fn lemma_first_missing_patched(lines: Seq<Seq<char>>, e: Endpoints, m: int)
    ensures
        first_missing_from(patched_lines(lines, e), m) == first_missing_from(lines, m),
    decreases 4 - m,
{
    if 0 <= m < 4 {
        lemma_key_found_patched(lines, e, m);
        lemma_first_missing_patched(lines, e, m + 1);
    }
}

/// Rewriting the settings a second time with the same endpoints changes
/// nothing, as long as the host holds no line break.
pub proof fn law_patch_settings_idempotent(s: Seq<char>, e: Endpoints)
    requires
        no_newline(e.host@),
        patch_settings_spec(s, e) is Ok,
    ensures
        patch_settings_spec(patch_settings_spec(s, e)->Ok_0, e) == patch_settings_spec(s, e),
{
    let lines = lines_spec(s);
    let p = patched_lines(lines, e);
    lemma_patched_text_is_crlf(lines, e);
    lemma_lines_no_newline(s);
    assert forall|i: int| 0 <= i < p.len() implies no_newline(#[trigger] p[i]) by {
        lemma_first_key_patched(lines[i], e);
    }
    lemma_lines_of_crlf_text(p);
    lemma_first_missing_patched(lines, e, 0);
    lemma_patched_text_is_crlf(p, e);
    assert forall|i: int| 0 <= i < p.len() implies #[trigger] patched_lines(p, e)[i] == p[i] by {
        lemma_first_key_patched(lines[i], e);
    }
    assert(patched_lines(p, e) =~= p);
}

} // verus!

verus! {

/// The rewritten text splits back into exactly the rewritten lines, as long
/// as the host holds no line break.
pub proof fn law_patched_settings_lines(s: Seq<char>, e: Endpoints)
    requires
        no_newline(e.host@),
        patch_settings_spec(s, e) is Ok,
    ensures
        lines_spec(patch_settings_spec(s, e)->Ok_0) == patched_lines(lines_spec(s), e),
{
    let lines = lines_spec(s);
    let p = patched_lines(lines, e);
    lemma_patched_text_is_crlf(lines, e);
    lemma_lines_no_newline(s);
    assert forall|i: int| 0 <= i < p.len() implies no_newline(#[trigger] p[i]) by {
        lemma_first_key_patched(lines[i], e);
    }
    lemma_lines_of_crlf_text(p);
}

} // verus!

verus! {

/// Some line of `lines` assigns the key at position `k` of the lookup order.
pub open spec fn assigned(lines: Seq<Seq<char>>, k: int) -> bool {
    exists|i: int| 0 <= i < lines.len() && assigns(#[trigger] lines[i], setting_keys()[k])
}

proof fn lemma_first_key_assigns(line: Seq<char>, k: int)
    requires
        0 <= k < 4,
    ensures
        first_key(line) == Some(k) <==> assigns(line, setting_keys()[k]),
{
    reveal_strlit("cdn");
    reveal_strlit("ipaddress");
    reveal_strlit("url");
    reveal_strlit("noticeURL");
    let keys = setting_keys();
    assert forall|j: int|
        0 <= j < 4 && j != k && assigns(line, keys[j]) && assigns(line, keys[k]) implies false by {
        assert(line.subrange(0, keys[j].len() as int)[0] == line[0]);
        assert(line.subrange(0, keys[k].len() as int)[0] == line[0]);
        assert(keys[j][0] != keys[k][0]);
    }
    assert(first_key(line) == first_key_from(line, 0));
    assert(first_key_from(line, 4) is None);
    assert(first_key_from(line, 3) == (if assigns(line, keys[3]) { Some(3int) } else { None }));
    assert(first_key_from(line, 2) == (if assigns(line, keys[2]) { Some(2int) } else { first_key_from(line, 3) }));
    assert(first_key_from(line, 1) == (if assigns(line, keys[1]) { Some(1int) } else { first_key_from(line, 2) }));
    assert(first_key_from(line, 0) == (if assigns(line, keys[0]) { Some(0int) } else { first_key_from(line, 1) }));
}

proof fn lemma_key_found_exists(lines: Seq<Seq<char>>, k: int)
    requires
        0 <= k < 4,
    ensures
        key_found(lines, k) <==> assigned(lines, k),
    decreases lines.len(),
{
    if lines.len() > 0 {
        let rest = lines.drop_last();
        lemma_key_found_exists(rest, k);
        lemma_first_key_assigns(lines.last(), k);
        if assigned(rest, k) {
            let i = choose|i: int| 0 <= i < rest.len() && assigns(#[trigger] rest[i], setting_keys()[k]);
            assert(lines[i] == rest[i]);
        }
        if assigned(lines, k) {
            let i = choose|i: int| 0 <= i < lines.len() && assigns(#[trigger] lines[i], setting_keys()[k]);
            if i < lines.len() - 1 {
                assert(rest[i] == lines[i]);
            }
        }
        if assigns(lines.last(), setting_keys()[k]) {
            assert(lines[lines.len() - 1] == lines.last());
        }
    }
}

proof fn lemma_first_missing_from(lines: Seq<Seq<char>>, m: int)
    requires
        0 <= m <= 4,
    ensures
        match first_missing_from(lines, m) {
            None => forall|k: int| m <= k < 4 ==> #[trigger] key_found(lines, k),
            Some(k) => m <= k < 4 && !key_found(lines, k) && forall|j: int|
                m <= j < k ==> #[trigger] key_found(lines, j),
        },
    decreases 4 - m,
{
    if m < 4 && key_found(lines, m) {
        lemma_first_missing_from(lines, m + 1);
    }
}

/// The settings are rewritten exactly when each of the four keys is
/// assigned by some line of the text; otherwise the error names the first
/// key, in lookup order, that no line assigns.
pub proof fn law_patch_settings_needs_every_key(s: Seq<char>, e: Endpoints)
    ensures
        patch_settings_spec(s, e) is Ok <==> forall|k: int|
            0 <= k < 4 ==> #[trigger] assigned(lines_spec(s), k),
        patch_settings_spec(s, e) is Err ==> exists|k: int|
            0 <= k < 4 && patch_settings_spec(s, e) == Err::<Seq<char>, SettingKey>(setting_key_at(k))
                && !assigned(lines_spec(s), k) && forall|j: int|
                0 <= j < k ==> #[trigger] assigned(lines_spec(s), j),
{
    let lines = lines_spec(s);
    lemma_first_missing_from(lines, 0);
    assert forall|k: int| 0 <= k < 4 implies (key_found(lines, k) <==> #[trigger] assigned(
        lines,
        k,
    )) by {
        lemma_key_found_exists(lines, k);
    }
    match first_missing_from(lines, 0) {
        Some(k) => {
            assert(!assigned(lines, k));
        },
        None => {},
    }
}

} // verus!

verus! {

impl SettingsError {
    /// The error, for the user.
    pub fn message(&self) -> (m: String)
        ensures
            match self {
                SettingsError::Missing(k) => m@ == "settings.txt is missing "@ + setting_keys()[
                    match k {
                        SettingKey::Cdn => 0int,
                        SettingKey::IpAddress => 1int,
                        SettingKey::Url => 2int,
                        SettingKey::NoticeUrl => 3int,
                    }
                ],
            },
    {
        match self {
            SettingsError::Missing(k) => {
                let mut m = crate::text::string_of("settings.txt is missing ");
                let i: usize = match k {
                    SettingKey::Cdn => 0,
                    SettingKey::IpAddress => 1,
                    SettingKey::Url => 2,
                    SettingKey::NoticeUrl => 3,
                };
                m.append(key_text(i));
                m
            },
        }
    }
}

} // verus!
