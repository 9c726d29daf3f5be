//! Server endpoints and optional tool locations read from the configuration
//! file, their validation, and the URLs written into the game's settings.
use vstd::prelude::*;
use crate::text::{
    all_digits, chars_of, decimal, digits_value, is_ascii_digit, is_dot, law_decimal_numeral,
    law_numeral_of_digits,
    lemma_split_acc_close, lemma_split_acc_extend, push_decimal, split_acc, split_chars, split_spec,
    string_of,
};

verus! {

/// Where the patched game connects.
#[derive(Debug, Clone, PartialEq, Eq)]
pub struct Endpoints {
    pub host: String,
    pub game_port: u16,
    pub sdk_port: u16,
    pub hotpatch_port: u16,
}

/// Optional explicit tool locations.
#[derive(Debug, Clone, PartialEq, Eq)]
pub struct Tools {
    pub zipalign: Option<String>,
    pub apksigner: Option<String>,
    pub keytool: Option<String>,
    pub keystore: Option<String>,
}

/// The whole configuration.
#[derive(Debug, Clone, PartialEq, Eq)]
pub struct Config {
    pub endpoints: Endpoints,
    pub tools: Tools,
}

/// `http://HOST:HOTPATCH_PORT/prod/en/Android`.
pub open spec fn cdn_url_spec(host: Seq<char>, hotpatch_port: u16) -> Seq<char> {
    "http://"@ + host + ":"@ + decimal(hotpatch_port as nat) + "/prod/en/Android"@
}

/// `HOST:GAME_PORT`.
pub open spec fn game_address_spec(host: Seq<char>, game_port: u16) -> Seq<char> {
    host + ":"@ + decimal(game_port as nat)
}

/// `http://HOST:SDK_PORT`.
pub open spec fn sdk_url_spec(host: Seq<char>, sdk_port: u16) -> Seq<char> {
    "http://"@ + host + ":"@ + decimal(sdk_port as nat)
}

impl Endpoints {
    /// URL of the hot-patch CDN.
    pub fn cdn_url(&self) -> (url: String)
        ensures
            url@ == cdn_url_spec(self.host@, self.hotpatch_port),
    {
        let mut url = string_of("http://");
        url.append(self.host.as_str());
        url.append(":");
        push_decimal(&mut url, self.hotpatch_port as u64);
        url.append("/prod/en/Android");
        url
    }

    /// Address of the game server.
    pub fn game_address(&self) -> (address: String)
        ensures
            address@ == game_address_spec(self.host@, self.game_port),
    {
        let mut address = string_of(self.host.as_str());
        address.append(":");
        push_decimal(&mut address, self.game_port as u64);
        address
    }

    /// URL of the SDK server.
    pub fn sdk_url(&self) -> (url: String)
        ensures
            url@ == sdk_url_spec(self.host@, self.sdk_port),
    {
        let mut url = string_of("http://");
        url.append(self.host.as_str());
        url.append(":");
        push_decimal(&mut url, self.sdk_port as u64);
        url
    }
}

} // verus!

verus! {

/// A dotted-quad octet as `Ipv4Addr`'s parser takes it: one to three ASCII
/// digits, no leading zero, at most 255.
pub open spec fn is_octet(p: Seq<char>) -> bool {
    &&& 1 <= p.len() <= 3
    &&& all_digits(p)
    &&& (p.len() > 1 ==> p[0] != '0')
    &&& digits_value(p) <= 255
}

/// `s` is an IPv4 address in dotted-quad notation.
pub open spec fn is_ipv4(s: Seq<char>) -> bool {
    let parts = split_spec(s, |c: char| is_dot(c));
    &&& parts.len() == 4
    &&& forall|i: int| 0 <= i < 4 ==> is_octet(#[trigger] parts[i])
}

/// `t` is `prefix`, then `':'`, then the decimal digits of `port` (no
/// leading zero), then `suffix`.
pub open spec fn port_after(t: Seq<char>, prefix: Seq<char>, port: u16, suffix: Seq<char>) -> bool {
    let digits = t.subrange(prefix.len() + 1int, t.len() - suffix.len());
    &&& t.len() >= prefix.len() + 2 + suffix.len()
    &&& t.subrange(0, prefix.len() as int) == prefix
    &&& t[prefix.len() as int] == ':'
    &&& t.subrange(t.len() - suffix.len(), t.len() as int) == suffix
    &&& all_digits(digits)
    &&& digits_value(digits) == port
    &&& (digits.len() > 1 ==> digits[0] != '0')
}

/// The endpoint texts name the host and the port in decimal: the game
/// address is `HOST:PORT`, the SDK URL `http://HOST:PORT` and the CDN URL
/// `http://HOST:PORT/prod/en/Android`, each port written with the digits of
/// its value.
pub proof fn law_endpoint_texts(host: Seq<char>, game_port: u16, sdk_port: u16, hotpatch_port: u16)
    ensures
        port_after(game_address_spec(host, game_port), host, game_port, Seq::empty()),
        port_after(sdk_url_spec(host, sdk_port), "http://"@ + host, sdk_port, Seq::empty()),
        port_after(
            cdn_url_spec(host, hotpatch_port),
            "http://"@ + host,
            hotpatch_port,
            "/prod/en/Android"@,
        ),
{
    reveal_strlit(":");
    law_decimal_numeral(game_port as nat);
    law_decimal_numeral(sdk_port as nat);
    law_decimal_numeral(hotpatch_port as nat);
    let g = game_address_spec(host, game_port);
    assert(g.subrange(0, host.len() as int) =~= host);
    assert(g.subrange(host.len() + 1int, g.len() - 0) =~= decimal(game_port as nat));
    assert(g.subrange(g.len() - 0, g.len() as int) =~= Seq::<char>::empty());
    let h = "http://"@ + host;
    let su = sdk_url_spec(host, sdk_port);
    assert(su =~= h + ":"@ + decimal(sdk_port as nat));
    assert(su.subrange(0, h.len() as int) =~= h);
    assert(su.subrange(h.len() + 1int, su.len() - 0) =~= decimal(sdk_port as nat));
    assert(su.subrange(su.len() - 0, su.len() as int) =~= Seq::<char>::empty());
    let cu = cdn_url_spec(host, hotpatch_port);
    let tail = "/prod/en/Android"@;
    assert(cu =~= h + ":"@ + decimal(hotpatch_port as nat) + tail);
    assert(cu.subrange(0, h.len() as int) =~= h);
    assert(cu.subrange(h.len() + 1int, cu.len() - tail.len()) =~= decimal(hotpatch_port as nat));
    assert(cu.subrange(cu.len() - tail.len(), cu.len() as int) =~= tail);
}

/// A piece of one to three ASCII digits without a leading zero is an octet
/// exactly when its value is at most 255.
pub proof fn law_octet_is_numeric(p: Seq<char>)
    requires
        1 <= p.len() <= 3,
        all_digits(p),
        p.len() > 1 ==> p[0] != '0',
    ensures
        is_octet(p) <==> digits_value(p) <= 255,
{
}

/// An octet is the decimal numeral of a number from 0 to 255.
pub proof fn law_octets_are_decimal(p: Seq<char>)
    requires
        is_octet(p),
    ensures
        digits_value(p) <= 255,
        p == decimal(digits_value(p) as nat),
{
    law_numeral_of_digits(p);
}

/// Every number from 0 to 255, written in decimal, is an octet.
pub proof fn law_decimal_octets(n: nat)
    requires
        n <= 255,
    ensures
        is_octet(decimal(n)),
{
    law_decimal_numeral(n);
}

proof fn lemma_no_dot(x: Seq<char>)
    requires
        all_digits(x),
    ensures
        forall|i: int| 0 <= i < x.len() ==> !is_dot(#[trigger] x[i]),
{
    assert forall|i: int| 0 <= i < x.len() implies !is_dot(#[trigger] x[i]) by {
        assert(is_ascii_digit(x[i]));
    }
}

/// Every dotted quad `a.b.c.d` of numbers from 0 to 255 written in decimal
/// is an IPv4 address.
pub proof fn law_dotted_quads_are_ipv4(a: nat, b: nat, c: nat, d: nat)
    requires
        a <= 255,
        b <= 255,
        c <= 255,
        d <= 255,
    ensures
        is_ipv4(
            decimal(a) + seq!['.'] + decimal(b) + seq!['.'] + decimal(c) + seq!['.'] + decimal(d),
        ),
{
    let sep = |ch: char| is_dot(ch);
    let (xa, xb, xc, xd) = (decimal(a), decimal(b), decimal(c), decimal(d));
    law_decimal_octets(a);
    law_decimal_octets(b);
    law_decimal_octets(c);
    law_decimal_octets(d);
    lemma_no_dot(xa);
    lemma_no_dot(xb);
    lemma_no_dot(xc);
    lemma_no_dot(xd);
    let e = Seq::<char>::empty();
    lemma_split_acc_extend(e, xa, sep);
    assert(e + xa =~= xa);
    assert(split_acc(e, sep) == (Seq::<Seq<char>>::empty(), e));
    assert(e + xa =~= xa);
    let s1 = xa.push('.');
    lemma_split_acc_close(xa, '.', sep);
    lemma_split_acc_extend(s1, xb, sep);
    let s2 = (s1 + xb).push('.');
    lemma_split_acc_close(s1 + xb, '.', sep);
    lemma_split_acc_extend(s2, xc, sep);
    let s3 = (s2 + xc).push('.');
    lemma_split_acc_close(s2 + xc, '.', sep);
    lemma_split_acc_extend(s3, xd, sep);
    let s = xa + seq!['.'] + xb + seq!['.'] + xc + seq!['.'] + xd;
    assert(s =~= s3 + xd);
    assert(e + xb =~= xb);
    assert(e + xc =~= xc);
    assert(e + xd =~= xd);
    let parts = split_spec(s, sep);
    assert(parts =~= seq![xa, xb, xc, xd]);
    assert(forall|i: int| 0 <= i < 4 ==> is_octet(#[trigger] parts[i]));
}

fn is_octet_exec(p: &Vec<char>) -> (b: bool)
    ensures
        b == is_octet(p@),
{
    if p.len() == 0 || p.len() > 3 {
        return false;
    }
    if p.len() > 1 && p[0] == '0' {
        return false;
    }
    let mut v: u32 = 0;
    let mut i: usize = 0;
    while i < p.len()
        invariant
            1 <= p.len() <= 3,
            i <= p.len(),
            all_digits(p@.take(i as int)),
            v == digits_value(p@.take(i as int)),
            i == 0 ==> v == 0,
            i == 1 ==> v <= 9,
            i == 2 ==> v <= 99,
            i == 3 ==> v <= 999,
        decreases p.len() - i,
    {
        let c = p[i];
        if !(c >= '0' && c <= '9') {
            assert(!is_ascii_digit(p@[i as int]));
            return false;
        }
        proof {
            assert(p@.take(i + 1).drop_last() =~= p@.take(i as int));
            assert(p@.take(i + 1).last() == c);
            assert forall|k: int| 0 <= k < i + 1 implies is_ascii_digit(
                #[trigger] p@.take(i + 1)[k],
            ) by {
                if k < i {
                    assert(p@.take(i + 1)[k] == p@.take(i as int)[k]);
                }
            }
        }
        v = v * 10 + (c as u32 - 48);
        i = i + 1;
    }
    assert(p@.take(p.len() as int) =~= p@);
    v <= 255
}

/// Which port setting is out of range.
#[derive(Debug, Clone, PartialEq, Eq)]
pub enum PortField {
    Game,
    Sdk,
    Hotpatch,
}

/// Rejected configuration.
#[derive(Debug, Clone, PartialEq, Eq)]
pub enum ConfigError {
    /// `endpoints.host` is not an IPv4 address.
    InvalidHost,
    /// A port is zero.
    ZeroPort(PortField),
}

/// Checks that `host` is an IPv4 address (`Ipv4Addr`'s textual form).
pub fn validate_host(host: &str) -> (r: Result<(), ConfigError>)
    ensures
        r is Ok <==> is_ipv4(host@),
        r is Err ==> r == Err::<(), ConfigError>(ConfigError::InvalidHost),
{
    let chars = chars_of(host);
    let parts = split_chars(&chars, false);
    if parts.len() != 4 {
        return Err(ConfigError::InvalidHost);
    }
    let ghost pieces = split_spec(host@, |c: char| is_dot(c));
    assert(crate::text::separator(false) == (|c: char| is_dot(c)));
    let mut i: usize = 0;
    while i < 4
        invariant
            chars@ == host@,
            pieces == split_spec(host@, |c: char| is_dot(c)),
            parts@.len() == 4,
            pieces.len() == 4,
            forall|k: int| 0 <= k < 4 ==> #[trigger] parts@[k]@ == pieces[k],
            i <= 4,
            forall|k: int| 0 <= k < i ==> is_octet(#[trigger] pieces[k]),
        decreases 4 - i,
    {
        if !is_octet_exec(&parts[i]) {
            return Err(ConfigError::InvalidHost);
        }
        i = i + 1;
    }
    Ok(())
}

/// Outcome of validating `e`: the first problem in the order host, game
/// port, SDK port, hot-patch port.
pub open spec fn endpoints_validation(e: Endpoints) -> Result<(), ConfigError> {
    if !is_ipv4(e.host@) {
        Err(ConfigError::InvalidHost)
    } else if e.game_port == 0 {
        Err(ConfigError::ZeroPort(PortField::Game))
    } else if e.sdk_port == 0 {
        Err(ConfigError::ZeroPort(PortField::Sdk))
    } else if e.hotpatch_port == 0 {
        Err(ConfigError::ZeroPort(PortField::Hotpatch))
    } else {
        Ok(())
    }
}

impl Endpoints {
    /// Checks that the host is an IPv4 address and that no port is zero.
    pub fn validate(&self) -> (r: Result<(), ConfigError>)
        ensures
            r == endpoints_validation(*self),
    {
        validate_host(self.host.as_str())?;
        if self.game_port == 0 {
            return Err(ConfigError::ZeroPort(PortField::Game));
        }
        if self.sdk_port == 0 {
            return Err(ConfigError::ZeroPort(PortField::Sdk));
        }
        if self.hotpatch_port == 0 {
            return Err(ConfigError::ZeroPort(PortField::Hotpatch));
        }
        Ok(())
    }
}

} // verus!

verus! {

/// Whether `p` is an absolute path under the target platform's path rules.
pub uninterp spec fn path_is_absolute(p: Seq<char>) -> bool;

/// `base` joined with `p` under the target platform's path rules.
pub uninterp spec fn path_join(base: Seq<char>, p: Seq<char>) -> Seq<char>;

/// `std::path::Path::is_absolute` on `p`; the result is named, not described.
#[verifier::external_body]
pub(crate) fn is_absolute_path(p: &str) -> (b: bool)
    ensures
        b == path_is_absolute(p@),
{
    std::path::Path::new(p).is_absolute()
}

/// `std::path::Path::join` of `base` and `p`, as text. Its documentation
/// states that an absolute `p` replaces `base`; otherwise the result is only
/// named.
#[verifier::external_body]
pub(crate) fn join_path(base: &str, p: &str) -> (joined: String)
    ensures
        joined@ == path_join(base@, p@),
        path_is_absolute(p@) ==> joined@ == p@,
{
    std::path::Path::new(base).join(p).to_string_lossy().into_owned()
}

/// `p` with its last component replaced by `name`, under the target
/// platform's path rules.
pub uninterp spec fn path_with_file_name(p: Seq<char>, name: Seq<char>) -> Seq<char>;

/// `std::path::Path::with_file_name` of `p` and `name`, as text; the result
/// is named, not described.
#[verifier::external_body]
pub(crate) fn with_file_name(p: &str, name: &str) -> (r: String)
    ensures
        r@ == path_with_file_name(p@, name@),
{
    std::path::Path::new(p).with_file_name(name).to_string_lossy().into_owned()
}

/// Where a configured path points: absolute paths stay, relative ones are
/// taken from `root`.
pub open spec fn resolved_path(root: Seq<char>, p: Seq<char>) -> Seq<char> {
    if path_is_absolute(p) {
        p
    } else {
        path_join(root, p)
    }
}

/// Resolves an optional configured path against the configuration's
/// directory.
pub fn resolve(root: &str, path: Option<String>) -> (r: Option<String>)
    ensures
        path is None ==> r is None,
        path matches Some(p) ==> (r matches Some(q) && q@ == resolved_path(root@, p@)),
{
    match path {
        Some(p) => {
            if is_absolute_path(p.as_str()) {
                Some(p)
            } else {
                Some(join_path(root, p.as_str()))
            }
        },
        None => None,
    }
}

/// `r` is `t` resolved against `root`.
pub open spec fn resolved_option(root: Seq<char>, t: Option<String>, r: Option<String>) -> bool {
    match t {
        None => r is None,
        Some(p) => r matches Some(q) && q@ == resolved_path(root, p@),
    }
}

impl Config {
    /// Finishes a freshly parsed configuration: validates the endpoints, then
    /// resolves the tool paths against `root`, the configuration file's
    /// directory.
    pub fn checked(self, root: &str) -> (r: Result<Config, ConfigError>)
        ensures
            r is Err ==> r->Err_0 == endpoints_validation(self.endpoints)->Err_0,
            r is Ok <==> endpoints_validation(self.endpoints) is Ok,
            r matches Ok(c) ==> {
                &&& c.endpoints == self.endpoints
                &&& resolved_option(root@, self.tools.zipalign, c.tools.zipalign)
                &&& resolved_option(root@, self.tools.apksigner, c.tools.apksigner)
                &&& resolved_option(root@, self.tools.keytool, c.tools.keytool)
                &&& resolved_option(root@, self.tools.keystore, c.tools.keystore)
            },
    {
        match self.endpoints.validate() {
            Err(e) => Err(e),
            Ok(()) => {
                let Config { endpoints, tools } = self;
                let Tools { zipalign, apksigner, keytool, keystore } = tools;
                Ok(
                    Config {
                        endpoints,
                        tools: Tools {
                            zipalign: resolve(root, zipalign),
                            apksigner: resolve(root, apksigner),
                            keytool: resolve(root, keytool),
                            keystore: resolve(root, keystore),
                        },
                    },
                )
            },
        }
    }
}

} // verus!

verus! {

impl ConfigError {
    /// The error, for the user.
    pub fn message(&self) -> (m: String)
        ensures
            m@ == match self {
                ConfigError::InvalidHost => "endpoints.host must be an IPv4 address"@,
                ConfigError::ZeroPort(PortField::Game) =>
                    "endpoints.game_port must be from 1 to 65535"@,
                ConfigError::ZeroPort(PortField::Sdk) => "endpoints.sdk_port must be from 1 to 65535"@,
                ConfigError::ZeroPort(PortField::Hotpatch) =>
                    "endpoints.hotpatch_port must be from 1 to 65535"@,
            },
    {
        match self {
            ConfigError::InvalidHost => string_of("endpoints.host must be an IPv4 address"),
            ConfigError::ZeroPort(PortField::Game) => string_of(
                "endpoints.game_port must be from 1 to 65535",
            ),
            ConfigError::ZeroPort(PortField::Sdk) => string_of(
                "endpoints.sdk_port must be from 1 to 65535",
            ),
            ConfigError::ZeroPort(PortField::Hotpatch) => string_of(
                "endpoints.hotpatch_port must be from 1 to 65535",
            ),
        }
    }
}

} // verus!
