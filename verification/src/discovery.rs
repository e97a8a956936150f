//! Service discovery: the names services are announced under, how announced names are read
//! back, and how the records of the shared discovery table become resolved addresses.
use vstd::prelude::*;
use vstd::string::*;
use crate::text::{
    decimal, decimal_string, find_char, first_index_of_char, is_white_space,
    lemma_first_index_in_range, replace_first, replace_first_underscore, str_eq, trim, trim_end,
    trim_start, trim_string,
};

verus! {

/// A service to resolve or announce: protocol, name and domain.
#[derive(Debug, Clone)]
pub struct ServiceDetails {
    pub protocol: String,
    pub service_name: String,
    pub domain: String,
}

/// A service this sidecar announces, and the URL of the client that implements it.
#[derive(Debug, Clone)]
pub struct AnnounceServiceDetails {
    pub service_details: ServiceDetails,
    pub client_url: String,
}

/// The DNS-SD domain of a service: `_{protocol}._{name}._{domain}.local`.
pub open spec fn domain_of(protocol: Seq<char>, name: Seq<char>, domain: Seq<char>) -> Seq<char> {
    "_"@ + protocol + "._"@ + name + "._"@ + domain + ".local"@
}

/// The domain a service is resolved and announced under.
pub fn create_domain(svc: &ServiceDetails) -> (r: String)
    ensures
        r@ == domain_of(svc.protocol@, svc.service_name@, svc.domain@),
{
    let mut s = String::from_str("_");
    s.append(svc.protocol.as_str());
    s.append("._");
    s.append(svc.service_name.as_str());
    s.append("._");
    s.append(svc.domain.as_str());
    s.append(".local");
    s
}

/// The domain an announced service is published under.
pub fn get_domain(svc: &AnnounceServiceDetails) -> (r: String)
    ensures
        r@ == domain_of(
            svc.service_details.protocol@,
            svc.service_details.service_name@,
            svc.service_details.domain@,
        ),
{
    create_domain(&svc.service_details)
}

pub open spec fn swir_suffix() -> Seq<char> {
    "._swir.local"@
}

/// What an mDNS name `instance.service_type` yields: the service's name and its type, for
/// names whose type ends in `._swir.local`.
pub open spec fn parsed_service_name(service: Seq<char>) -> Option<(Seq<char>, Seq<char>)> {
    match first_index_of_char(service, '.') {
        None => None,
        Some(i) => {
            let service_type = service.subrange(i + 1, service.len() as int);
            if swir_suffix().is_suffix_of(service_type) {
                let pos = service_type.len() - swir_suffix().len();
                let prot_and_service = trim(replace_first(service_type.subrange(0, pos), '_', ' '));
                match first_index_of_char(prot_and_service, '.') {
                    Some(j) => Some(
                        (
                            trim(
                                replace_first(
                                    prot_and_service.subrange(j + 1, prot_and_service.len() as int),
                                    '_',
                                    ' ',
                                ),
                            ),
                            service_type,
                        ),
                    ),
                    None => Some((prot_and_service, service_type)),
                }
            } else {
                None
            }
        },
    }
}

/// Whether `s` ends with `suffix`.
pub fn ends_with(s: &str, suffix: &str) -> (r: bool)
    ensures
        r == suffix@.is_suffix_of(s@),
{
    let n = suffix.unicode_len();
    let m = s.unicode_len();
    if n > m {
        return false;
    }
    let off = m - n;
    let mut i: usize = 0;
    while i < n
        invariant
            n == suffix@.len(),
            m == s@.len(),
            off == m - n,
            i <= n,
            forall|j: int| 0 <= j < i ==> suffix@[j] == s@[off + j],
        decreases n - i,
    {
        if suffix.get_char(i) != s.get_char(off + i) {
            return false;
        }
        i = i + 1;
    }
    assert(suffix@ =~= s@.subrange(off as int, m as int));
    true
}

/// Reads an announced mDNS name back into the service's name and type (see
/// `parsed_service_name`).
pub fn parse_service_name(service: &str) -> (r: Option<(String, String)>)
    ensures
        match r {
            Some((name, service_type)) => parsed_service_name(service@) == Some((name@, service_type@)),
            None => parsed_service_name(service@) is None,
        },
{
    proof { lemma_first_index_in_range(service@, '.'); }
    match find_char(service, '.') {
        None => None,
        Some(i) => {
            let n = service.unicode_len();
            let service_type = String::from_str(service.substring_char(i + 1, n));
            proof { reveal_strlit("._swir.local"); }
            if ends_with(service_type.as_str(), "._swir.local") {
                let ending_len = "._swir.local".unicode_len();
                let service_type_len = service_type.as_str().unicode_len();
                let pos = service_type_len - ending_len;
                let head = String::from_str(service_type.as_str().substring_char(0, pos));
                let replaced = replace_first_underscore(head.as_str());
                let prot_and_service = trim_string(replaced.as_str());
                proof { lemma_first_index_in_range(prot_and_service@, '.'); }
                match find_char(prot_and_service.as_str(), '.') {
                    Some(j) => {
                        let len = prot_and_service.as_str().unicode_len();
                        let tail = String::from_str(prot_and_service.as_str().substring_char(j + 1, len));
                        let replaced_tail = replace_first_underscore(tail.as_str());
                        let name = trim_string(replaced_tail.as_str());
                        Some((name, service_type))
                    },
                    None => Some((prot_and_service, service_type)),
                }
            } else {
                None
            }
        },
    }
}

proof fn lemma_trim_start_concat(a: Seq<char>, b: Seq<char>)
    requires
        b.len() > 0,
        !is_white_space(b[0]),
    ensures
        trim_start(a + b) == trim_start(a) + b,
    decreases a.len(),
{
    if a.len() == 0 {
        assert(a + b =~= b);
        assert(trim_start(a) =~= a);
        assert(trim_start(a) + b =~= b);
    } else if is_white_space(a[0]) {
        assert((a + b).drop_first() =~= a.drop_first() + b);
        lemma_trim_start_concat(a.drop_first(), b);
    } else {
        assert((a + b)[0] == a[0]);
    }
}

proof fn lemma_trim_end_concat(a: Seq<char>, b: Seq<char>)
    requires
        a.len() > 0,
        !is_white_space(a.last()),
    ensures
        trim_end(a + b) == a + trim_end(b),
    decreases b.len(),
{
    if b.len() == 0 {
        assert(a + b =~= a);
        assert(a + trim_end(b) =~= a);
    } else if is_white_space(b.last()) {
        assert((a + b).drop_last() =~= a + b.drop_last());
        assert((a + b).last() == b.last());
        lemma_trim_end_concat(a, b.drop_last());
    } else {
        assert((a + b).last() == b.last());
    }
}

proof fn lemma_trim_start_keeps_absence(s: Seq<char>, c: char)
    requires
        forall|i: int| 0 <= i < s.len() ==> s[i] != c,
    ensures
        forall|i: int| 0 <= i < trim_start(s).len() ==> trim_start(s)[i] != c,
    decreases s.len(),
{
    if s.len() > 0 && is_white_space(s[0]) {
        assert forall|i: int| 0 <= i < s.drop_first().len() implies s.drop_first()[i] != c by {
            assert(s.drop_first()[i] == s[i + 1]);
        }
        lemma_trim_start_keeps_absence(s.drop_first(), c);
        assert(trim_start(s) == trim_start(s.drop_first()));
    } else {
        assert(trim_start(s) == s);
    }
}

/// A service announced as `{instance}.{domain}` in the `swir` domain is read back under its
/// own name and type, where the instance name and the protocol hold no dot and the service
/// name has no white space at either end.
pub proof fn law_announced_name_reads_back(instance: Seq<char>, protocol: Seq<char>, name: Seq<char>)
    requires
        forall|i: int| 0 <= i < instance.len() ==> instance[i] != '.',
        forall|i: int| 0 <= i < protocol.len() ==> protocol[i] != '.',
        name.len() > 0 ==> !is_white_space(name[0]) && !is_white_space(name.last()),
    ensures
        parsed_service_name(instance + "."@ + domain_of(protocol, name, "swir"@)) == Some(
            (name, domain_of(protocol, name, "swir"@)),
        ),
{
    reveal_strlit(".");
    reveal_strlit("_");
    reveal_strlit("._");
    reveal_strlit("swir");
    reveal_strlit(".local");
    reveal_strlit("._swir.local");
    let d = domain_of(protocol, name, "swir"@);
    let full = instance + "."@ + d;
    let dot_ul = seq!['.', '_'];
    assert("._"@ =~= dot_ul);
    let head = seq!['_'] + protocol + dot_ul + name;
    assert(d =~= head + swir_suffix());
    // the first dot ends the instance name
    assert forall|j: int| 0 <= j < instance.len() implies full[j] != '.' by {
        assert(full[j] == instance[j]);
    }
    assert(full[instance.len() as int] == '.');
    crate::text::lemma_first_index_of_char(full, '.', instance.len() as int);
    let service_type = full.subrange(instance.len() as int + 1, full.len() as int);
    assert(service_type =~= d);
    assert(swir_suffix().is_suffix_of(service_type));
    let pos = service_type.len() - swir_suffix().len();
    assert(service_type.subrange(0, pos) =~= head);
    // the leading underscore becomes a space
    crate::text::lemma_first_index_of_char(head, '_', 0);
    let h1 = head.update(0, ' ');
    let a = seq![' '] + protocol;
    let b = dot_ul + name;
    assert(h1 =~= a + b);
    lemma_trim_start_concat(a, b);
    assert(a.drop_first() =~= protocol);
    let p1 = trim_start(protocol);
    assert(trim_start(a) == p1);
    assert(trim_start(h1) =~= (p1 + dot_ul) + name);
    lemma_trim_end_concat(p1 + dot_ul, name);
    assert(trim_end(name) == name);
    let pas = trim(h1);
    assert(pas =~= p1 + dot_ul + name);
    // the first dot of what remains ends the protocol
    lemma_trim_start_keeps_absence(protocol, '.');
    assert forall|j: int| 0 <= j < p1.len() implies pas[j] != '.' by {
        assert(pas[j] == p1[j]);
    }
    assert(pas[p1.len() as int] == '.');
    crate::text::lemma_first_index_of_char(pas, '.', p1.len() as int);
    let tail = pas.subrange(p1.len() as int + 1, pas.len() as int);
    assert(tail =~= seq!['_'] + name);
    crate::text::lemma_first_index_of_char(tail, '_', 0);
    let t1 = tail.update(0, ' ');
    assert(t1 =~= seq![' '] + name);
    assert(t1.drop_first() =~= name);
    assert(trim_start(name) == name);
    assert(trim_start(t1) == name);
}

/// An address a service was resolved to. `socket_addr` is the textual form of the socket
/// address that mDNS reported.
#[derive(Debug)]
pub struct ResolvedAddr {
    pub service_name: String,
    pub fqdn: Option<String>,
    pub socket_addr: Option<String>,
    pub domain: String,
    pub port: u16,
}

/// The URI a resolved service is reached at: `http://{fqdn}:{port}` where the host name is
/// known, else `http://{socket address}`; none where neither is.
pub open spec fn resolved_uri(fqdn: Option<Seq<char>>, socket_addr: Option<Seq<char>>, port: u16) -> Option<Seq<char>> {
    match fqdn {
        Some(f) => Some("http://"@ + f + ":"@ + decimal(port as nat)),
        None => match socket_addr {
            Some(a) => Some("http://"@ + a),
            None => None,
        },
    }
}

pub open spec fn opt_view(o: Option<String>) -> Option<Seq<char>> {
    match o {
        Some(s) => Some(s@),
        None => None,
    }
}

/// The URI a resolved address is reached at (see `resolved_uri`).
pub fn uri_for(addr: &ResolvedAddr) -> (r: Option<String>)
    ensures
        opt_view(r) == resolved_uri(opt_view(addr.fqdn), opt_view(addr.socket_addr), addr.port),
{
    match &addr.fqdn {
        Some(f) => {
            let mut s = String::from_str("http://");
            s.append(f.as_str());
            s.append(":");
            let p = decimal_string(addr.port as usize);
            s.append(p.as_str());
            Some(s)
        },
        None => match &addr.socket_addr {
            Some(a) => {
                let mut s = String::from_str("http://");
                s.append(a.as_str());
                Some(s)
            },
            None => None,
        },
    }
}

/// The value of a decimal digit character.
pub open spec fn digit_value(c: char) -> int {
    c as int - '0' as int
}

pub open spec fn is_digit(c: char) -> bool {
    '0' <= c && c <= '9'
}

/// The value of a string of decimal digits.
pub open spec fn digits_value(s: Seq<char>) -> int
    decreases s.len(),
{
    if s.len() == 0 {
        0
    } else {
        digits_value(s.drop_last()) * 10 + digit_value(s.last())
    }
}

/// What `u16::from_str` gives: an optional `+`, then at least one digit and nothing else,
/// with a value below 65536.
pub open spec fn sign_stripped(s: Seq<char>) -> Seq<char> {
    if s.len() > 0 && s[0] == '+' { s.drop_first() } else { s }
}

pub open spec fn all_digits(d: Seq<char>) -> bool {
    forall|i: int| 0 <= i < d.len() ==> is_digit(#[trigger] d[i])
}

pub open spec fn parsed_u16(s: Seq<char>) -> Option<u16> {
    let digits = sign_stripped(s);
    if digits.len() > 0 && all_digits(digits) && digits_value(digits) <= 65535 {
        Some(digits_value(digits) as u16)
    } else {
        None
    }
}

proof fn lemma_digits_value_nonneg(s: Seq<char>)
    requires
        forall|i: int| 0 <= i < s.len() ==> is_digit(#[trigger] s[i]),
    ensures
        digits_value(s) >= 0,
    decreases s.len(),
{
    if s.len() > 0 {
        lemma_digits_value_nonneg(s.drop_last());
    }
}

proof fn lemma_digits_value_grows(s: Seq<char>, k: int)
    requires
        0 <= k <= s.len(),
        forall|i: int| 0 <= i < s.len() ==> is_digit(#[trigger] s[i]),
    ensures
        digits_value(s.take(k)) <= digits_value(s),
    decreases s.len() - k,
{
    if k < s.len() {
        lemma_digits_value_grows(s, k + 1);
        assert(s.take(k + 1).drop_last() =~= s.take(k));
        assert(s.take(k + 1).last() == s[k]);
        assert(is_digit(s[k]));
        assert forall|i: int| 0 <= i < s.take(k).len() implies is_digit(#[trigger] s.take(k)[i]) by {
            assert(s.take(k)[i] == s[i]);
        }
        lemma_digits_value_nonneg(s.take(k));
    } else {
        assert(s.take(k) =~= s);
    }
}

/// Parses a port number as `u16::from_str` does.
pub fn parse_u16(s: &str) -> (r: Option<u16>)
    ensures
        r == parsed_u16(s@),
{
    let n = s.unicode_len();
    let mut start: usize = 0;
    if n > 0 && s.get_char(0) == '+' {
        start = 1;
    }
    let ghost digits = sign_stripped(s@);
    assert(digits =~= s@.subrange(start as int, n as int));
    if start >= n {
        return None;
    }
    let mut value: u32 = 0;
    let mut i: usize = start;
    while i < n
        invariant
            n == s@.len(),
            start <= i <= n,
            digits == s@.subrange(start as int, n as int),
            digits == sign_stripped(s@),
            forall|j: int| 0 <= j < i - start ==> is_digit(#[trigger] digits[j]),
            value as int == digits_value(digits.take(i - start)),
            value <= 65535,
        decreases n - i,
    {
        let c = s.get_char(i);
        if !('0' <= c && c <= '9') {
            proof {
                assert(digits[i - start] == c);
                assert(!is_digit(digits[i - start]));
            }
            return None;
        }
        let d = (c as u32) - ('0' as u32);
        proof {
            assert(digits[i - start] == c);
            assert(digits.take(i - start + 1).drop_last() =~= digits.take(i - start));
            assert(digits.take(i - start + 1).last() == c);
        }
        let next = value * 10 + d;
        proof {
            assert(digits_value(digits.take(i - start + 1)) == digits_value(digits.take(i - start)) * 10 + digit_value(c));
            assert(next as int == digits_value(digits.take(i - start + 1)));
        }
        if next > 65535 {
            proof {
                if all_digits(digits) {
                    lemma_digits_value_grows(digits, i - start + 1);
                }
            }
            return None;
        }
        value = next;
        i = i + 1;
    }
    assert(digits.take(n - start) =~= digits);
    Some(value as u16)
}

proof fn lemma_digit_char(d: nat)
    requires
        d < 10,
    ensures
        is_digit(crate::text::digit_char(d)),
        digit_value(crate::text::digit_char(d)) == d,
{
}

proof fn lemma_decimal_digits(n: nat)
    ensures
        decimal(n).len() > 0,
        all_digits(decimal(n)),
        digits_value(decimal(n)) == n,
    decreases n,
{
    if n < 10 {
        lemma_digit_char(n);
        assert(decimal(n).drop_last() =~= Seq::<char>::empty());
        assert(digits_value(Seq::<char>::empty()) == 0);
        assert(digits_value(decimal(n)) == digits_value(decimal(n).drop_last()) * 10 + digit_value(decimal(n).last()));
    } else {
        lemma_decimal_digits(n / 10);
        lemma_digit_char(n % 10);
        let s = decimal(n);
        assert(s.drop_last() =~= decimal(n / 10));
        assert forall|i: int| 0 <= i < s.len() implies is_digit(#[trigger] s[i]) by {
            if i < s.len() - 1 {
                assert(s[i] == decimal(n / 10)[i]);
            }
        }
        assert((n / 10) * 10 + n % 10 == n) by (nonlinear_arith);
        assert(s.last() == crate::text::digit_char(n % 10));
        assert(digits_value(s) == digits_value(s.drop_last()) * 10 + digit_value(s.last()));
    }
}

/// A port written in decimal, as the discovery table stores it, reads back as the same port.
pub proof fn law_port_text_reads_back(port: u16)
    ensures
        parsed_u16(decimal(port as nat)) == Some(port),
{
    lemma_decimal_digits(port as nat);
    let s = decimal(port as nat);
    assert(is_digit(s[0]));
    assert(sign_stripped(s) == s);
}

/// An attribute of a discovery-table record: its string or number form.
#[derive(Debug, Clone)]
pub struct AttributeValue {
    pub s: Option<String>,
    pub n: Option<String>,
}

/// A record of the discovery table, as (attribute name, value) pairs.
pub type Item = Vec<(String, AttributeValue)>;

/// A service found in the discovery table.
#[derive(Debug)]
pub struct ServiceDesc {
    pub service_name: String,
    pub domain: String,
    pub ip: String,
    pub port: String,
    pub fqdn: String,
}

pub struct AttributeView {
    pub s: Option<Seq<char>>,
    pub n: Option<Seq<char>>,
}

pub open spec fn item_view(item: Seq<(String, AttributeValue)>) -> Seq<(Seq<char>, AttributeView)> {
    item.map_values(|p: (String, AttributeValue)| (p.0@, AttributeView { s: opt_view(p.1.s), n: opt_view(p.1.n) }))
}

/// The value of an attribute of a record.
pub open spec fn attribute(item: Seq<(Seq<char>, AttributeView)>, name: Seq<char>) -> Option<AttributeView>
    decreases item.len(),
{
    if item.len() == 0 {
        None
    } else if item[0].0 == name {
        Some(item[0].1)
    } else {
        attribute(item.drop_first(), name)
    }
}

pub open spec fn string_attr(item: Seq<(Seq<char>, AttributeView)>, name: Seq<char>) -> Option<Seq<char>> {
    match attribute(item, name) {
        Some(a) => a.s,
        None => None,
    }
}

pub open spec fn number_attr(item: Seq<(Seq<char>, AttributeView)>, name: Seq<char>) -> Option<Seq<char>> {
    match attribute(item, name) {
        Some(a) => a.n,
        None => None,
    }
}

/// A record describes a service when it has a string service name, ip, domain and fqdn and a
/// numeric port.
pub open spec fn describes_service(item: Seq<(Seq<char>, AttributeView)>) -> bool {
    &&& string_attr(item, "service_name"@) is Some
    &&& string_attr(item, "ip"@) is Some
    &&& number_attr(item, "port"@) is Some
    &&& string_attr(item, "domain"@) is Some
    &&& string_attr(item, "fqdn"@) is Some
}

pub struct ServiceDescView {
    pub service_name: Seq<char>,
    pub domain: Seq<char>,
    pub ip: Seq<char>,
    pub port: Seq<char>,
    pub fqdn: Seq<char>,
}

pub open spec fn desc_view(d: ServiceDesc) -> ServiceDescView {
    ServiceDescView {
        service_name: d.service_name@,
        domain: d.domain@,
        ip: d.ip@,
        port: d.port@,
        fqdn: d.fqdn@,
    }
}

pub open spec fn desc_of(item: Seq<(Seq<char>, AttributeView)>) -> ServiceDescView {
    ServiceDescView {
        service_name: string_attr(item, "service_name"@).unwrap(),
        domain: string_attr(item, "domain"@).unwrap(),
        ip: string_attr(item, "ip"@).unwrap(),
        port: number_attr(item, "port"@).unwrap(),
        fqdn: string_attr(item, "fqdn"@).unwrap(),
    }
}

/// The services the records describe, in record order.
pub open spec fn services_of(items: Seq<Seq<(Seq<char>, AttributeView)>>) -> Seq<ServiceDescView>
    decreases items.len(),
{
    if items.len() == 0 {
        Seq::empty()
    } else {
        let rest = services_of(items.drop_last());
        if describes_service(items.last()) {
            rest.push(desc_of(items.last()))
        } else {
            rest
        }
    }
}

/// Every record of a scan that describes a service yields that service, and no other record
/// yields one: the services read are the describing records, in record order, each read as
/// its attributes say.
pub proof fn law_services_are_the_describing_records(items: Seq<Seq<(Seq<char>, AttributeView)>>)
    ensures
        services_of(items) == items.filter(|it: Seq<(Seq<char>, AttributeView)>| describes_service(it)).map_values(
            |it: Seq<(Seq<char>, AttributeView)>| desc_of(it),
        ),
    decreases items.len(),
{
    let pred = |it: Seq<(Seq<char>, AttributeView)>| describes_service(it);
    let f = |it: Seq<(Seq<char>, AttributeView)>| desc_of(it);
    reveal(Seq::filter);
    if items.len() == 0 {
        assert(items.filter(pred) =~= Seq::<Seq<(Seq<char>, AttributeView)>>::empty());
        assert(services_of(items) =~= items.filter(pred).map_values(f));
    } else {
        law_services_are_the_describing_records(items.drop_last());
        let sub = items.drop_last().filter(pred);
        if describes_service(items.last()) {
            assert(items.filter(pred) == sub.push(items.last()));
            assert(sub.push(items.last()).map_values(f) =~= sub.map_values(f).push(desc_of(items.last())));
        } else {
            assert(items.filter(pred) == sub);
        }
    }
}

/// A record that describes a service, appended to a scan, adds its service after the others;
/// one that does not adds nothing.
pub proof fn law_each_describing_record_adds_its_service(
    items: Seq<Seq<(Seq<char>, AttributeView)>>,
    it: Seq<(Seq<char>, AttributeView)>,
)
    ensures
        describes_service(it) ==> services_of(items.push(it)) == services_of(items).push(desc_of(it)),
        !describes_service(it) ==> services_of(items.push(it)) == services_of(items),
{
    assert(items.push(it).drop_last() =~= items);
}

proof fn lemma_attribute_found(item: Seq<(Seq<char>, AttributeView)>, name: Seq<char>, i: int)
    requires
        0 <= i < item.len(),
        item[i].0 == name,
        forall|j: int| 0 <= j < i ==> item[j].0 != name,
    ensures
        attribute(item, name) == Some(item[i].1),
    decreases item.len(),
{
    if i > 0 {
        assert forall|j: int| 0 <= j < i - 1 implies item.drop_first()[j].0 != name by {
            assert(item.drop_first()[j] == item[j + 1]);
        }
        lemma_attribute_found(item.drop_first(), name, i - 1);
    }
}

proof fn lemma_attribute_absent(item: Seq<(Seq<char>, AttributeView)>, name: Seq<char>)
    requires
        forall|j: int| 0 <= j < item.len() ==> item[j].0 != name,
    ensures
        attribute(item, name) is None,
    decreases item.len(),
{
    if item.len() > 0 {
        assert forall|j: int| 0 <= j < item.len() - 1 implies item.drop_first()[j].0 != name by {
            assert(item.drop_first()[j] == item[j + 1]);
        }
        lemma_attribute_absent(item.drop_first(), name);
    }
}

fn get_attribute<'a>(item: &'a Item, name: &str) -> (r: Option<&'a AttributeValue>)
    ensures
        match r {
            Some(a) => attribute(item_view(item@), name@) == Some(AttributeView { s: opt_view(a.s), n: opt_view(a.n) }),
            None => attribute(item_view(item@), name@) is None,
        },
{
    let ghost iv = item_view(item@);
    let mut i: usize = 0;
    while i < item.len()
        invariant
            i <= item@.len(),
            iv == item_view(item@),
            forall|j: int| 0 <= j < i ==> iv[j].0 != name@,
        decreases item@.len() - i,
    {
        if str_eq(item[i].0.as_str(), name) {
            proof { lemma_attribute_found(iv, name@, i as int); }
            return Some(&item[i].1);
        }
        i = i + 1;
    }
    proof { lemma_attribute_absent(iv, name@); }
    None
}

fn get_string_attribute(item: &Item, name: &str) -> (r: Option<String>)
    ensures
        opt_view(r) == string_attr(item_view(item@), name@),
{
    match get_attribute(item, name) {
        Some(a) => match &a.s {
            Some(s) => Some(s.clone()),
            None => None,
        },
        None => None,
    }
}

fn get_number_attribute(item: &Item, name: &str) -> (r: Option<String>)
    ensures
        opt_view(r) == number_attr(item_view(item@), name@),
{
    match get_attribute(item, name) {
        Some(a) => match &a.n {
            Some(s) => Some(s.clone()),
            None => None,
        },
        None => None,
    }
}

/// The services described by the records of a discovery-table scan; records that lack an
/// attribute, or hold it in the wrong form, are skipped.
pub fn services_from_items(items: &Vec<Item>) -> (r: Vec<ServiceDesc>)
    ensures
        r@.map_values(|d: ServiceDesc| desc_view(d)) == services_of(items@.map_values(|it: Item| item_view(it@))),
{
    let ghost iv = items@.map_values(|it: Item| item_view(it@));
    let mut out: Vec<ServiceDesc> = Vec::new();
    let mut i: usize = 0;
    assert(iv.take(0) =~= Seq::<Seq<(Seq<char>, AttributeView)>>::empty());
    assert(out@.map_values(|d: ServiceDesc| desc_view(d)) =~= Seq::<ServiceDescView>::empty());
    while i < items.len()
        invariant
            i <= items@.len(),
            iv == items@.map_values(|it: Item| item_view(it@)),
            out@.map_values(|d: ServiceDesc| desc_view(d)) == services_of(iv.take(i as int)),
        decreases items@.len() - i,
    {
        proof {
            assert(iv.take(i + 1).drop_last() =~= iv.take(i as int));
            assert(iv.take(i + 1).last() == item_view(items@[i as int]@));
        }
        let item = &items[i];
        proof { reveal_strlit("service_name"); reveal_strlit("ip"); reveal_strlit("port"); reveal_strlit("domain"); reveal_strlit("fqdn"); }
        let name = get_string_attribute(item, "service_name");
        let ip = get_string_attribute(item, "ip");
        let port = get_number_attribute(item, "port");
        let domain = get_string_attribute(item, "domain");
        let fqdn = get_string_attribute(item, "fqdn");
        let ghost before = out@;
        match (name, ip, port, domain, fqdn) {
            (Some(service_name), Some(ip), Some(port), Some(domain), Some(fqdn)) => {
                let d = ServiceDesc { service_name, domain, ip, port, fqdn };
                out.push(d);
                proof {
                    assert(out@.map_values(|d: ServiceDesc| desc_view(d)) =~= before.map_values(|d: ServiceDesc| desc_view(d)).push(desc_view(d)));
                }
            },
            _ => {},
        }
        i = i + 1;
    }
    assert(iv.take(items@.len() as int) =~= iv);
    out
}

/// The address a discovered service resolves to, once its port has been read.
pub fn resolved_from_desc(desc: &ServiceDesc, port: u16) -> (r: ResolvedAddr)
    ensures
        r.service_name@ == desc.service_name@,
        r.domain@ == desc.domain@,
        r.socket_addr is None,
        opt_view(r.fqdn) == Some(desc.fqdn@),
        r.port == port,
{
    ResolvedAddr {
        service_name: desc.service_name.clone(),
        domain: desc.domain.clone(),
        socket_addr: None,
        fqdn: Some(desc.fqdn.clone()),
        port,
    }
}

fn text_attribute(name: &str, value: &str) -> (r: (String, AttributeValue))
    ensures
        r.0@ == name@,
        opt_view(r.1.s) == Some(value@),
        r.1.n is None,
{
    (String::from_str(name), AttributeValue { s: Some(String::from_str(value)), n: None })
}

fn number_attribute(name: &str, value: usize) -> (r: (String, AttributeValue))
    ensures
        r.0@ == name@,
        r.1.s is None,
        opt_view(r.1.n) == Some(decimal(value as nat)),
{
    (String::from_str(name), AttributeValue { s: None, n: Some(decimal_string(value)) })
}

/// The record a sidecar announces a service with: keyed by its host name, stamped with the
/// time it was last seen, and with the host's address where it has one.
pub open spec fn announce_item_view(
    instance_name: Seq<char>,
    domain: Seq<char>,
    service_name: Seq<char>,
    fqdn: Seq<char>,
    ip: Option<Seq<char>>,
    port: u16,
    last_seen_ms: nat,
) -> Seq<(Seq<char>, AttributeView)> {
    let text = |v: Seq<char>| AttributeView { s: Some(v), n: None };
    let number = |v: nat| AttributeView { s: None, n: Some(decimal(v)) };
    let head = seq![
        ("partition_key"@, text(fqdn)),
        ("service_name"@, text(service_name)),
        ("domain"@, text(domain)),
        ("instance_name"@, text(instance_name)),
        ("last_seen_at"@, number(last_seen_ms)),
        ("fqdn"@, text(fqdn)),
    ];
    let with_ip = match ip {
        Some(a) => head.push(("ip"@, text(a))),
        None => head,
    };
    with_ip.push(("port"@, number(port as nat)))
}

/// The record announcing a service, as the discovery table stores it.
pub fn announce_item(
    instance_name: &str,
    domain: &str,
    service_name: &str,
    fqdn: &str,
    ip: &Option<String>,
    port: u16,
    last_seen_ms: usize,
) -> (r: Item)
    ensures
        item_view(r@) == announce_item_view(
            instance_name@,
            domain@,
            service_name@,
            fqdn@,
            opt_view(*ip),
            port,
            last_seen_ms as nat,
        ),
{
    let mut item: Item = Vec::new();
    item.push(text_attribute("partition_key", fqdn));
    item.push(text_attribute("service_name", service_name));
    item.push(text_attribute("domain", domain));
    item.push(text_attribute("instance_name", instance_name));
    item.push(number_attribute("last_seen_at", last_seen_ms));
    item.push(text_attribute("fqdn", fqdn));
    match ip {
        Some(addr) => {
            item.push(text_attribute("ip", addr.as_str()));
        },
        None => {},
    }
    item.push(number_attribute("port", port as usize));
    proof {
        let v = announce_item_view(instance_name@, domain@, service_name@, fqdn@, opt_view(*ip), port, last_seen_ms as nat);
        assert(item_view(item@).len() == v.len());
        assert forall|i: int| 0 <= i < v.len() implies item_view(item@)[i] == v[i] by {
            assert(item_view(item@)[i] == (item@[i].0@, AttributeView { s: opt_view(item@[i].1.s), n: opt_view(item@[i].1.n) }));
        }
        assert(item_view(item@) =~= v);
    }
    item
}

/// A service announced with an address is read back from the discovery table as the
/// service, domain, address and host it was announced with, under a port text that parses
/// back to its port; announced without an address, it is not read back at all.
pub proof fn law_announced_item_reads_back(
    instance_name: Seq<char>,
    domain: Seq<char>,
    service_name: Seq<char>,
    fqdn: Seq<char>,
    ip: Option<Seq<char>>,
    port: u16,
    last_seen_ms: nat,
)
    ensures
        ({
            let item = announce_item_view(instance_name, domain, service_name, fqdn, ip, port, last_seen_ms);
            &&& describes_service(item) <==> ip is Some
            &&& ip matches Some(a) ==> {
                let d = desc_of(item);
                &&& d.service_name == service_name
                &&& d.domain == domain
                &&& d.ip == a
                &&& d.fqdn == fqdn
                &&& parsed_u16(d.port) == Some(port)
            }
        }),
{
    reveal_strlit("partition_key");
    reveal_strlit("service_name");
    reveal_strlit("domain");
    reveal_strlit("instance_name");
    reveal_strlit("last_seen_at");
    reveal_strlit("fqdn");
    reveal_strlit("ip");
    reveal_strlit("port");
    let item = announce_item_view(instance_name, domain, service_name, fqdn, ip, port, last_seen_ms);
    let names = seq!["partition_key"@, "service_name"@, "domain"@, "instance_name"@, "last_seen_at"@, "fqdn"@];
    assert forall|j: int| 0 <= j < 6 implies item[j].0 == names[j] by {}
    assert forall|j: int| 0 <= j < 1 implies item[j].0 != "service_name"@ by {
        assert(item[j].0.len() != "service_name"@.len());
    }
    lemma_attribute_found(item, "service_name"@, 1);
    assert forall|j: int| 0 <= j < 2 implies item[j].0 != "domain"@ by {
        assert(item[j].0.len() != "domain"@.len());
    }
    lemma_attribute_found(item, "domain"@, 2);
    assert forall|j: int| 0 <= j < 5 implies item[j].0 != "fqdn"@ by {
        assert(item[j].0.len() != "fqdn"@.len());
    }
    lemma_attribute_found(item, "fqdn"@, 5);
    match ip {
        Some(a) => {
            assert forall|j: int| 0 <= j < 6 implies item[j].0 != "ip"@ by {
                assert(item[j].0.len() != "ip"@.len());
            }
            lemma_attribute_found(item, "ip"@, 6);
            assert forall|j: int| 0 <= j < 7 implies item[j].0 != "port"@ by {
                if j == 5 {
                    assert(item[j].0[0] != "port"@[0]);
                } else {
                    assert(item[j].0.len() != "port"@.len());
                }
            }
            lemma_attribute_found(item, "port"@, 7);
        },
        None => {
            assert forall|j: int| 0 <= j < item.len() implies item[j].0 != "ip"@ by {
                assert(item[j].0.len() != "ip"@.len());
            }
            lemma_attribute_absent(item, "ip"@);
            assert forall|j: int| 0 <= j < 6 implies item[j].0 != "port"@ by {
                if j == 5 {
                    assert(item[j].0[0] != "port"@[0]);
                } else {
                    assert(item[j].0.len() != "port"@.len());
                }
            }
            lemma_attribute_found(item, "port"@, 6);
        },
    }
    law_port_text_reads_back(port);
}

/// A network address of the host: IPv4 or IPv6, as the number its octets spell.
#[derive(Debug, PartialEq, Eq, Clone, Copy, Structural)]
pub enum IpValue {
    V4(u32),
    V6(u128),
}

/// `127.0.0.0/8`, or `::1`.
pub open spec fn is_loopback(a: IpValue) -> bool {
    match a {
        IpValue::V4(x) => x / 0x100_0000 == 127,
        IpValue::V6(x) => x == 1,
    }
}

/// `224.0.0.0/4`, or `ff00::/8`.
pub open spec fn is_multicast(a: IpValue) -> bool {
    match a {
        IpValue::V4(x) => 224 <= x / 0x100_0000 <= 239,
        IpValue::V6(x) => x / 0x100_0000_0000_0000_0000_0000_0000_0000 == 0xff,
    }
}

/// The order of addresses: every IPv4 address before every IPv6 one, then by number.
pub open spec fn ip_le(a: IpValue, b: IpValue) -> bool {
    match (a, b) {
        (IpValue::V4(x), IpValue::V4(y)) => x <= y,
        (IpValue::V4(_), IpValue::V6(_)) => true,
        (IpValue::V6(_), IpValue::V4(_)) => false,
        (IpValue::V6(x), IpValue::V6(y)) => x <= y,
    }
}

pub open spec fn announceable(a: IpValue) -> bool {
    !is_loopback(a) && !is_multicast(a)
}

fn ip_less(a: IpValue, b: IpValue) -> (r: bool)
    ensures
        r == !ip_le(b, a),
{
    match (a, b) {
        (IpValue::V4(x), IpValue::V4(y)) => x < y,
        (IpValue::V4(_), IpValue::V6(_)) => true,
        (IpValue::V6(_), IpValue::V4(_)) => false,
        (IpValue::V6(x), IpValue::V6(y)) => x < y,
    }
}

fn is_announceable(a: IpValue) -> (r: bool)
    ensures
        r == announceable(a),
{
    match a {
        IpValue::V4(x) => {
            let first = x / 0x100_0000;
            first != 127 && !(224 <= first && first <= 239)
        },
        IpValue::V6(x) => x != 1 && x / 0x100_0000_0000_0000_0000_0000_0000_0000 != 0xff,
    }
}

/// The address a host announces its services under: the greatest of its addresses that is
/// neither loopback nor multicast, none where it has no such address.
pub fn host_address(addrs: &Vec<IpValue>) -> (r: Option<IpValue>)
    ensures
        r is None <==> forall|i: int| 0 <= i < addrs@.len() ==> !announceable(#[trigger] addrs@[i]),
        r matches Some(a) ==> {
            &&& announceable(a)
            &&& addrs@.contains(a)
            &&& forall|i: int| 0 <= i < addrs@.len() && announceable(#[trigger] addrs@[i]) ==> ip_le(addrs@[i], a)
        },
{
    let mut best: Option<IpValue> = None;
    let mut i: usize = 0;
    while i < addrs.len()
        invariant
            i <= addrs@.len(),
            best is None <==> forall|j: int| 0 <= j < i ==> !announceable(#[trigger] addrs@[j]),
            best matches Some(a) ==> {
                &&& announceable(a)
                &&& addrs@.subrange(0, i as int).contains(a)
                &&& forall|j: int| 0 <= j < i && announceable(#[trigger] addrs@[j]) ==> ip_le(addrs@[j], a)
            },
        decreases addrs@.len() - i,
    {
        let ip = addrs[i];
        if is_announceable(ip) {
            match best {
                Some(b) => {
                    if ip_less(b, ip) {
                        best = Some(ip);
                    }
                },
                None => {
                    best = Some(ip);
                },
            }
        }
        proof {
            if best is Some {
                let a = best->0;
                if a == ip && announceable(ip) {
                    assert(addrs@.subrange(0, i + 1)[i as int] == ip);
                } else {
                    let k = choose|k: int| 0 <= k < i && addrs@.subrange(0, i as int)[k] == a;
                    assert(addrs@.subrange(0, i + 1)[k] == a);
                }
            }
        }
        i = i + 1;
    }
    proof {
        assert(addrs@.subrange(0, addrs@.len() as int) =~= addrs@);
    }
    best
}

/// What an mDNS answer for `domain` at `socket_addr` resolves to: the service its name reads
/// back to, reached at that socket address; nothing where the name is not a service name.
pub fn resolved_from_mdns(domain: String, socket_addr: String, port: u16) -> (r: Option<ResolvedAddr>)
    ensures
        match parsed_service_name(domain@) {
            Some((name, _)) => r matches Some(a) && a.service_name@ == name && a.domain == domain
                && opt_view(a.socket_addr) == Some(socket_addr@) && a.fqdn is None && a.port == port,
            None => r is None,
        },
{
    match parse_service_name(domain.as_str()) {
        Some((service_name, _)) => Some(
            ResolvedAddr { service_name, domain, socket_addr: Some(socket_addr), fqdn: None, port },
        ),
        None => None,
    }
}

/// The listeners of a service that stay after a scan: those whose channel was not found
/// closed, in their order.
pub open spec fn open_listeners<T>(listeners: Seq<T>, closed: Seq<bool>) -> Seq<T>
    decreases listeners.len(),
{
    if listeners.len() == 0 {
        Seq::empty()
    } else if closed[0] {
        open_listeners(listeners.drop_first(), closed.drop_first())
    } else {
        seq![listeners[0]] + open_listeners(listeners.drop_first(), closed.drop_first())
    }
}

proof fn lemma_open_listeners_step<T>(l: Seq<T>, c: Seq<bool>, i: int)
    requires
        0 <= i < l.len(),
        l.len() == c.len(),
    ensures
        open_listeners(l.skip(i), c.skip(i)) == if c[i] {
            open_listeners(l.skip(i + 1), c.skip(i + 1))
        } else {
            seq![l[i]] + open_listeners(l.skip(i + 1), c.skip(i + 1))
        },
{
    assert(l.skip(i).drop_first() =~= l.skip(i + 1));
    assert(c.skip(i).drop_first() =~= c.skip(i + 1));
}

/// Drops the listeners of a service whose channels a scan found closed (`closed[i]` for the
/// `i`-th listener), keeping the others in order; tells whether none is left, in which case
/// the service has no listener any more. Exactly the closed listeners go: the positions
/// recorded during the scan are not removed one after another (each removal would shift the
/// positions after it, dropping open listeners or running past the end).
pub fn drop_closed_listeners<T>(listeners: &mut Vec<T>, closed: &Vec<bool>) -> (r: bool)
    requires
        old(listeners)@.len() == closed@.len(),
    ensures
        final(listeners)@ == open_listeners(old(listeners)@, closed@),
        r == (final(listeners)@.len() == 0),
{
    let ghost l0 = listeners@;
    let mut i: usize = listeners.len();
    assert(l0.skip(l0.len() as int) =~= Seq::<T>::empty());
    assert(listeners@ =~= l0.take(i as int) + open_listeners(l0.skip(i as int), closed@.skip(i as int)));
    while i > 0
        invariant
            l0.len() == closed@.len(),
            i <= l0.len(),
            listeners@ == l0.take(i as int) + open_listeners(l0.skip(i as int), closed@.skip(i as int)),
        decreases i,
    {
        let k = i - 1;
        proof { lemma_open_listeners_step(l0, closed@, k as int); }
        let ghost rest = open_listeners(l0.skip(i as int), closed@.skip(i as int));
        if closed[k] {
            listeners.remove(k);
            assert(listeners@ =~= l0.take(k as int) + rest);
        } else {
            assert(listeners@ =~= l0.take(k as int) + (seq![l0[k as int]] + rest));
        }
        i = k;
    }
    assert(l0.skip(0) =~= l0);
    assert(closed@.skip(0) =~= closed@);
    assert(l0.take(0) =~= Seq::<T>::empty());
    assert(listeners@ =~= open_listeners(l0, closed@));
    listeners.len() == 0
}

} // verus!
