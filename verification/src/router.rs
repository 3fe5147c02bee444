//! Routing rules: which connections go straight to their target, which go through the proxy and
//! which are dropped.

use vstd::prelude::*;
use vstd::arithmetic::power2::*;
use crate::net::{Ipv4Addr, SocketAddr, SocketAddrV4, SocketAddrV6};
use crate::protocol::{TargetAddr, TargetModel};
use crate::text;

verus! {

/// What becomes of a connection.
#[derive(Clone, Copy, PartialEq, Eq, Structural, Debug)]
pub enum RouteAction {
    /// Straight to the target.
    Direct,
    /// Through the upstream proxy.
    Proxy,
    /// Dropped.
    Block,
}

impl RouteAction {
    pub open spec fn text(self) -> Seq<char> {
        match self {
            RouteAction::Direct => "DIRECT"@,
            RouteAction::Proxy => "PROXY"@,
            RouteAction::Block => "BLOCK"@,
        }
    }

    pub fn to_text(&self) -> (r: String)
        ensures
            r@ == self.text(),
    {
        match self {
            RouteAction::Direct => text::copy_text("DIRECT"),
            RouteAction::Proxy => text::copy_text("PROXY"),
            RouteAction::Block => text::copy_text("BLOCK"),
        }
    }
}

/// What a rule looks at.
#[derive(PartialEq, Eq, Debug)]
pub enum RulePattern {
    /// A domain and everything below it.
    DomainSuffix(String),
    /// Domain names that hold this text.
    DomainKeyword(String),
    /// One domain name.
    DomainExact(String),
    /// A range of IPv4 addresses.
    IpCidr { ip: String, prefix_len: u8 },
    Port(u16),
    /// Ports from `start` up to and counting `end`.
    PortRange { start: u16, end: u16 },
    /// Everything.
    Final,
}

pub enum PatternModel {
    DomainSuffix(Seq<char>),
    DomainKeyword(Seq<char>),
    DomainExact(Seq<char>),
    IpCidr { ip: Seq<char>, prefix_len: u8 },
    Port(u16),
    PortRange { start: u16, end: u16 },
    Final,
}

impl View for RulePattern {
    type V = PatternModel;

    open spec fn view(&self) -> PatternModel {
        match self {
            RulePattern::DomainSuffix(s) => PatternModel::DomainSuffix(s@),
            RulePattern::DomainKeyword(s) => PatternModel::DomainKeyword(s@),
            RulePattern::DomainExact(s) => PatternModel::DomainExact(s@),
            RulePattern::IpCidr { ip, prefix_len } => PatternModel::IpCidr { ip: ip@, prefix_len: *prefix_len },
            RulePattern::Port(p) => PatternModel::Port(*p),
            RulePattern::PortRange { start, end } => PatternModel::PortRange { start: *start, end: *end },
            RulePattern::Final => PatternModel::Final,
        }
    }
}

impl Clone for RulePattern {
    fn clone(&self) -> (r: RulePattern)
        ensures
            r@ == self@,
    {
        match self {
            RulePattern::DomainSuffix(s) => RulePattern::DomainSuffix(text::copy_text(s)),
            RulePattern::DomainKeyword(s) => RulePattern::DomainKeyword(text::copy_text(s)),
            RulePattern::DomainExact(s) => RulePattern::DomainExact(text::copy_text(s)),
            RulePattern::IpCidr { ip, prefix_len } => RulePattern::IpCidr {
                ip: text::copy_text(ip),
                prefix_len: *prefix_len,
            },
            RulePattern::Port(p) => RulePattern::Port(*p),
            RulePattern::PortRange { start, end } => RulePattern::PortRange { start: *start, end: *end },
            RulePattern::Final => RulePattern::Final,
        }
    }
}

/// A rule: connections that the pattern matches get the action.
#[derive(PartialEq, Eq, Debug)]
pub struct RuleItem {
    pub id: String,
    pub name: String,
    pub pattern: RulePattern,
    pub action: RouteAction,
    pub enabled: bool,
}

pub struct RuleModel {
    pub id: Seq<char>,
    pub name: Seq<char>,
    pub pattern: PatternModel,
    pub action: RouteAction,
    pub enabled: bool,
}

impl View for RuleItem {
    type V = RuleModel;

    open spec fn view(&self) -> RuleModel {
        RuleModel {
            id: self.id@,
            name: self.name@,
            pattern: self.pattern@,
            action: self.action,
            enabled: self.enabled,
        }
    }
}

impl Clone for RuleItem {
    fn clone(&self) -> (r: RuleItem)
        ensures
            r@ == self@,
    {
        RuleItem {
            id: text::copy_text(&self.id),
            name: text::copy_text(&self.name),
            pattern: self.pattern.clone(),
            action: self.action,
            enabled: self.enabled,
        }
    }
}

/// The action for a connection, with the rule that it comes from.
#[derive(PartialEq, Eq, Debug)]
pub struct RouteDecision {
    pub action: RouteAction,
    pub rule_name: String,
    pub pattern_desc: String,
}

pub struct DecisionModel {
    pub action: RouteAction,
    pub rule_name: Seq<char>,
    pub pattern_desc: Seq<char>,
}

impl Clone for RouteDecision {
    fn clone(&self) -> (r: RouteDecision)
        ensures
            r@ == self@,
    {
        RouteDecision {
            action: self.action,
            rule_name: text::copy_text(&self.rule_name),
            pattern_desc: text::copy_text(&self.pattern_desc),
        }
    }
}

impl View for RouteDecision {
    type V = DecisionModel;

    open spec fn view(&self) -> DecisionModel {
        DecisionModel { action: self.action, rule_name: self.rule_name@, pattern_desc: self.pattern_desc@ }
    }
}

/// The rules, in the order in which they are tried.
#[derive(Debug)]
pub struct Router {
    pub rules: Vec<RuleItem>,
}

impl View for Router {
    type V = Seq<RuleModel>;

    open spec fn view(&self) -> Seq<RuleModel> {
        Seq::new(self.rules@.len(), |i: int| self.rules@[i]@)
    }
}

// What rules mean.

/// The two addresses agree in their first `prefix_len` bits.
pub open spec fn same_network(ip: Ipv4Addr, net: Ipv4Addr, prefix_len: u8) -> bool {
    prefix_len <= 32 && ip.number() / pow2((32 - prefix_len) as nat) == net.number() / pow2((32 - prefix_len) as nat)
}

/// The pattern matches a connection to `host` and `port`; `ip` is the IPv4 address that `host` is.
pub open spec fn matches_pattern(pattern: PatternModel, host: Seq<char>, port: u16, ip: Option<Ipv4Addr>) -> bool {
    match pattern {
        PatternModel::DomainSuffix(suffix) => {
            let s = text::lower(text::strip_start(suffix, '.'));
            let h = text::lower(host);
            h == s || text::ends_with(h, seq!['.'] + s)
        },
        PatternModel::DomainKeyword(word) => text::contains(text::lower(host), text::lower(word)),
        PatternModel::DomainExact(name) => text::same_ignoring_case(host, name),
        PatternModel::IpCidr { ip: net, prefix_len } => match (ip, Ipv4Addr::of_text(net)) {
            (Some(ip), Some(net)) => same_network(ip, net, prefix_len),
            _ => false,
        },
        PatternModel::Port(p) => port == p,
        PatternModel::PortRange { start, end } => start <= port <= end,
        PatternModel::Final => true,
    }
}

/// The pattern as the console shows it.
pub open spec fn pattern_text(pattern: PatternModel) -> Seq<char> {
    match pattern {
        PatternModel::DomainSuffix(s) => "*."@ + s,
        PatternModel::DomainKeyword(s) => "Keyword("@ + s + ")"@,
        PatternModel::DomainExact(s) => "Exact("@ + s + ")"@,
        PatternModel::IpCidr { ip, prefix_len } => ip + "/"@ + text::dec(prefix_len as nat),
        PatternModel::Port(p) => "Port("@ + text::dec(p as nat) + ")"@,
        PatternModel::PortRange { start, end } => "Port("@ + text::dec(start as nat) + "-"@ + text::dec(end as nat)
            + ")"@,
        PatternModel::Final => "FINAL"@,
    }
}

impl TargetModel {
    pub open spec fn host(self) -> Seq<char> {
        match self {
            TargetModel::Ip(sa) => sa.host(),
            TargetModel::Domain(host, _) => host,
        }
    }

    /// The IPv4 address that the target names, in either form.
    pub open spec fn ipv4(self) -> Option<Ipv4Addr> {
        match self {
            TargetModel::Ip(SocketAddr::V4(v4)) => Some(v4.ip),
            TargetModel::Ip(SocketAddr::V6(_)) => None,
            TargetModel::Domain(host, _) => Ipv4Addr::of_text(host),
        }
    }
}

impl RuleModel {
    /// The rule is on and matches the target.
    pub open spec fn applies(self, target: TargetModel) -> bool {
        self.enabled && matches_pattern(self.pattern, target.host(), target.port(), target.ipv4())
    }

    pub open spec fn decision(self) -> DecisionModel {
        DecisionModel { action: self.action, rule_name: self.name, pattern_desc: pattern_text(self.pattern) }
    }
}

/// The decision where no rule applies.
pub open spec fn fallback() -> DecisionModel {
    DecisionModel {
        action: RouteAction::Proxy,
        rule_name: "默认保底代理"@,
        pattern_desc: "DEFAULT_FALLBACK"@,
    }
}

/// The first rule that applies decides.
pub open spec fn decide(rules: Seq<RuleModel>, target: TargetModel) -> DecisionModel
    decreases rules.len(),
{
    if rules.len() == 0 {
        fallback()
    } else if rules[0].applies(target) {
        rules[0].decision()
    } else {
        decide(rules.drop_first(), target)
    }
}

/// The place of the first rule that matches everything; the number of rules where there is none.
pub open spec fn final_place(rules: Seq<RuleModel>) -> int
    decreases rules.len(),
{
    if rules.len() == 0 || rules[0].pattern is Final {
        0
    } else {
        1 + final_place(rules.drop_first())
    }
}

/// The place of the first rule with the id; the number of rules where there is none.
pub open spec fn id_place(rules: Seq<RuleModel>, id: Seq<char>) -> int
    decreases rules.len(),
{
    if rules.len() == 0 || rules[0].id == id {
        0
    } else {
        1 + id_place(rules.drop_first(), id)
    }
}

proof fn lemma_final_place(rules: Seq<RuleModel>, k: int)
    requires
        0 <= k <= rules.len(),
        forall|j: int| 0 <= j < k ==> !((#[trigger] rules[j]).pattern is Final),
        k < rules.len() ==> rules[k].pattern is Final,
    ensures
        final_place(rules) == k,
    decreases rules.len(),
{
    if k > 0 {
        assert forall|j: int| 0 <= j < k - 1 implies !((#[trigger] rules.drop_first()[j]).pattern is Final) by {
            assert(!(rules[j + 1].pattern is Final));
        }
        assert(!(rules[0].pattern is Final));
        lemma_final_place(rules.drop_first(), k - 1);
    }
}

proof fn lemma_id_place(rules: Seq<RuleModel>, id: Seq<char>, k: int)
    requires
        0 <= k <= rules.len(),
        forall|j: int| 0 <= j < k ==> (#[trigger] rules[j]).id != id,
        k < rules.len() ==> rules[k].id == id,
    ensures
        id_place(rules, id) == k,
    decreases rules.len(),
{
    if k > 0 {
        assert forall|j: int| 0 <= j < k - 1 implies (#[trigger] rules.drop_first()[j]).id != id by {
            assert(rules[j + 1].id != id);
        }
        assert(rules[0].id != id);
        lemma_id_place(rules.drop_first(), id, k - 1);
    }
}

/// The rule stands before the first one that matches everything, or last where there is none.
pub open spec fn with_rule(rules: Seq<RuleModel>, rule: RuleModel) -> Seq<RuleModel> {
    rules.insert(final_place(rules), rule)
}

/// Without the first rule with the id.
pub open spec fn without_rule(rules: Seq<RuleModel>, id: Seq<char>) -> Seq<RuleModel> {
    if id_place(rules, id) < rules.len() {
        rules.remove(id_place(rules, id))
    } else {
        rules
    }
}

/// The first rule with the id is switched on or off.
pub open spec fn with_enabled(rules: Seq<RuleModel>, id: Seq<char>, enabled: bool) -> Seq<RuleModel> {
    let k = id_place(rules, id);
    if k < rules.len() {
        rules.update(k, RuleModel { enabled, ..rules[k] })
    } else {
        rules
    }
}

impl Router {
    pub fn new(rules: Vec<RuleItem>) -> (r: Router)
        ensures
            r.rules == rules,
    {
        Router { rules }
    }

    fn cidr_matches_v4(ip: Ipv4Addr, net: Ipv4Addr, prefix_len: u8) -> (r: bool)
        ensures
            r == same_network(ip, net, prefix_len),
    {
        if prefix_len == 0 {
            proof {
                lemma2_to64();
                assert(pow2(32) == 0x1_0000_0000);
                vstd::arithmetic::div_mod::lemma_basic_div(ip.number() as int, 0x1_0000_0000);
                vstd::arithmetic::div_mod::lemma_basic_div(net.number() as int, 0x1_0000_0000);
            }
            return true;
        }
        if prefix_len > 32 {
            return false;
        }
        let host_bits: u32 = 32 - prefix_len as u32;
        let x: u32 = ip.to_u32();
        let y: u32 = net.to_u32();
        proof {
            vstd::bits::lemma_u32_shr_is_div(x, host_bits);
            vstd::bits::lemma_u32_shr_is_div(y, host_bits);
        }
        (x >> host_bits) == (y >> host_bits)
    }

    fn match_pattern(pattern: &RulePattern, host: &str, port: u16, ip: Option<Ipv4Addr>) -> (r: bool)
        ensures
            r == matches_pattern(pattern@, host@, port, ip),
    {
        match pattern {
            RulePattern::DomainSuffix(suffix) => {
                let s = text::lower_chars(&text::strip_start_matches(suffix, '.'));
                let h = text::lower_chars(host);
                if text::same_chars(&h, &s) {
                    return true;
                }
                let mut dotted: Vec<char> = Vec::new();
                dotted.push('.');
                let mut i: usize = 0;
                while i < s.len()
                    invariant
                        i <= s@.len(),
                        dotted@ == seq!['.'] + s@.subrange(0, i as int),
                    decreases s@.len() - i,
                {
                    dotted.push(s[i]);
                    i = i + 1;
                    assert(dotted@ =~= seq!['.'] + s@.subrange(0, i as int));
                }
                assert(s@.subrange(0, s@.len() as int) =~= s@);
                text::chars_end_with(&h, &dotted)
            },
            RulePattern::DomainKeyword(word) => {
                let w = text::lower_chars(word);
                text::chars_contain(&text::lower_chars(host), &w)
            },
            RulePattern::DomainExact(name) => text::eq_ignore_ascii_case(host, name),
            RulePattern::IpCidr { ip: net, prefix_len } => match (ip, Ipv4Addr::parse(net)) {
                (Some(ip), Some(net)) => Router::cidr_matches_v4(ip, net, *prefix_len),
                _ => false,
            },
            RulePattern::Port(p) => port == *p,
            RulePattern::PortRange { start, end } => port >= *start && port <= *end,
            RulePattern::Final => true,
        }
    }

    fn format_pattern(pattern: &RulePattern) -> (r: String)
        ensures
            r@ == pattern_text(pattern@),
    {
        match pattern {
            RulePattern::DomainSuffix(s) => text::join("*.", s),
            RulePattern::DomainKeyword(s) => text::join(&text::join("Keyword(", s), ")"),
            RulePattern::DomainExact(s) => text::join(&text::join("Exact(", s), ")"),
            RulePattern::IpCidr { ip, prefix_len } => {
                let mut r = text::join(ip, "/");
                text::push_dec(&mut r, *prefix_len as u64);
                r
            },
            RulePattern::Port(p) => {
                let mut r = text::copy_text("Port(");
                text::push_dec(&mut r, *p as u64);
                r.append(")");
                r
            },
            RulePattern::PortRange { start, end } => {
                let mut r = text::copy_text("Port(");
                text::push_dec(&mut r, *start as u64);
                r.append("-");
                text::push_dec(&mut r, *end as u64);
                r.append(")");
                r
            },
            RulePattern::Final => text::copy_text("FINAL"),
        }
    }

    /// The decision for a connection to the target.
    pub fn eval(&self, target: &TargetAddr) -> (r: RouteDecision)
        ensures
            r@ == decide(self@, target@),
    {
        let host: String = match target {
            TargetAddr::Ip(sa) => sa.host_text(),
            TargetAddr::Domain(host, _) => text::copy_text(host),
        };
        let port: u16 = target.port();
        let ip: Option<Ipv4Addr> = match target {
            TargetAddr::Ip(SocketAddr::V4(v4)) => Some(v4.ip),
            TargetAddr::Ip(SocketAddr::V6(_)) => None,
            TargetAddr::Domain(host, _) => Ipv4Addr::parse(host),
        };
        let mut i: usize = 0;
        assert(self@.subrange(0, self@.len() as int) =~= self@);
        while i < self.rules.len()
            invariant
                i <= self.rules@.len(),
                host@ == target@.host(),
                port == target@.port(),
                ip == target@.ipv4(),
                decide(self@.subrange(i as int, self@.len() as int), target@) == decide(self@, target@),
            decreases self.rules@.len() - i,
        {
            let ghost left = self@.subrange(i as int, self@.len() as int);
            let rule = &self.rules[i];
            assert(left[0] == rule@);
            if rule.enabled && Router::match_pattern(&rule.pattern, &host, port, ip) {
                return RouteDecision {
                    action: rule.action,
                    rule_name: text::copy_text(&rule.name),
                    pattern_desc: Router::format_pattern(&rule.pattern),
                };
            }
            assert(left.drop_first() =~= self@.subrange(i + 1, self@.len() as int));
            i = i + 1;
        }
        RouteDecision {
            action: RouteAction::Proxy,
            rule_name: text::copy_text("默认保底代理"),
            pattern_desc: text::copy_text("DEFAULT_FALLBACK"),
        }
    }

    fn find_id(&self, id: &str) -> (r: usize)
        ensures
            r == id_place(self@, id@),
            r <= self.rules@.len(),
    {
        let mut k: usize = 0;
        while k < self.rules.len() && !text::same(&self.rules[k].id, id)
            invariant
                k <= self.rules@.len(),
                forall|j: int| 0 <= j < k ==> (#[trigger] self@[j]).id != id@,
            decreases self.rules@.len() - k,
        {
            k = k + 1;
        }
        proof {
            lemma_id_place(self@, id@, k as int);
        }
        k
    }

    /// Adds a rule before the first one that matches everything.
    pub fn add_rule(&mut self, rule: RuleItem)
        ensures
            final(self)@ == with_rule(old(self)@, rule@),
    {
        let mut k: usize = 0;
        while k < self.rules.len() && !matches!(self.rules[k].pattern, RulePattern::Final)
            invariant
                *self == *old(self),
                k <= self.rules@.len(),
                forall|j: int| 0 <= j < k ==> !((#[trigger] self@[j]).pattern is Final),
            decreases self.rules@.len() - k,
        {
            k = k + 1;
        }
        proof {
            lemma_final_place(self@, k as int);
        }
        self.rules.insert(k, rule);
        assert(self@ =~= with_rule(old(self)@, rule@));
    }

    /// Removes the first rule with the id; says whether there was one.
    pub fn remove_rule(&mut self, id: &str) -> (r: bool)
        ensures
            final(self)@ == without_rule(old(self)@, id@),
            r == (id_place(old(self)@, id@) < old(self)@.len()),
    {
        let k: usize = self.find_id(id);
        if k < self.rules.len() {
            self.rules.remove(k);
            assert(self@ =~= without_rule(old(self)@, id@));
            true
        } else {
            false
        }
    }

    /// Switches the first rule with the id on or off; says whether there was one.
    pub fn set_rule_enabled(&mut self, id: &str, enabled: bool) -> (r: bool)
        ensures
            final(self)@ == with_enabled(old(self)@, id@, enabled),
            r == (id_place(old(self)@, id@) < old(self)@.len()),
    {
        let k: usize = self.find_id(id);
        if k < self.rules.len() {
            self.rules[k].enabled = enabled;
            assert(self@ =~= with_enabled(old(self)@, id@, enabled));
            true
        } else {
            false
        }
    }
}

// The presets.

pub open spec fn network_rule(
    id: Seq<char>,
    name: Seq<char>,
    ip: Seq<char>,
    prefix_len: u8,
) -> RuleModel {
    RuleModel {
        id,
        name,
        pattern: PatternModel::IpCidr { ip, prefix_len },
        action: RouteAction::Direct,
        enabled: true,
    }
}

pub open spec fn final_rule(id: Seq<char>, name: Seq<char>, action: RouteAction) -> RuleModel {
    RuleModel { id, name, pattern: PatternModel::Final, action, enabled: true }
}

/// Loopback, private networks and `.cn` go straight to the target, the rest through the proxy.
pub open spec fn smart_rules() -> Seq<RuleModel> {
    seq![
        network_rule("smart-1"@, "环回地址直连"@, "127.0.0.0"@, 8),
        network_rule("smart-2"@, "内网 Class A 直连"@, "10.0.0.0"@, 8),
        network_rule("smart-3"@, "内网 Class B 直连"@, "172.16.0.0"@, 12),
        network_rule("smart-4"@, "内网 Class C 直连"@, "192.168.0.0"@, 16),
        RuleModel {
            id: "smart-5"@,
            name: "中国大陆顶级域名直连"@,
            pattern: PatternModel::DomainSuffix("cn"@),
            action: RouteAction::Direct,
            enabled: true,
        },
        final_rule("smart-final"@, "默认代理"@, RouteAction::Proxy),
    ]
}

/// Loopback goes straight to the target, the rest through the proxy.
pub open spec fn global_proxy_rules() -> Seq<RuleModel> {
    seq![
        network_rule("global-1"@, "环回地址直连"@, "127.0.0.0"@, 8),
        final_rule("global-final"@, "全部走代理"@, RouteAction::Proxy),
    ]
}

/// Everything goes straight to the target.
pub open spec fn direct_rules() -> Seq<RuleModel> {
    seq![final_rule("direct-final"@, "全部直连"@, RouteAction::Direct)]
}

fn make_network_rule(id: &str, name: &str, ip: &str, prefix_len: u8) -> (r: RuleItem)
    ensures
        r@ == network_rule(id@, name@, ip@, prefix_len),
{
    RuleItem {
        id: text::copy_text(id),
        name: text::copy_text(name),
        pattern: RulePattern::IpCidr { ip: text::copy_text(ip), prefix_len },
        action: RouteAction::Direct,
        enabled: true,
    }
}

fn make_final_rule(id: &str, name: &str, action: RouteAction) -> (r: RuleItem)
    ensures
        r@ == final_rule(id@, name@, action),
{
    RuleItem {
        id: text::copy_text(id),
        name: text::copy_text(name),
        pattern: RulePattern::Final,
        action,
        enabled: true,
    }
}

impl Router {
    /// Loopback, private networks and `.cn` go straight to the target, the rest through the proxy.
    pub fn preset_smart() -> (r: Router)
        ensures
            r@ == smart_rules(),
    {
        let mut rules: Vec<RuleItem> = Vec::new();
        rules.push(make_network_rule("smart-1", "环回地址直连", "127.0.0.0", 8));
        rules.push(make_network_rule("smart-2", "内网 Class A 直连", "10.0.0.0", 8));
        rules.push(make_network_rule("smart-3", "内网 Class B 直连", "172.16.0.0", 12));
        rules.push(make_network_rule("smart-4", "内网 Class C 直连", "192.168.0.0", 16));
        rules.push(
            RuleItem {
                id: text::copy_text("smart-5"),
                name: text::copy_text("中国大陆顶级域名直连"),
                pattern: RulePattern::DomainSuffix(text::copy_text("cn")),
                action: RouteAction::Direct,
                enabled: true,
            },
        );
        rules.push(make_final_rule("smart-final", "默认代理", RouteAction::Proxy));
        let r = Router { rules };
        assert(r@ =~= smart_rules());
        r
    }

    /// Loopback goes straight to the target, the rest through the proxy.
    pub fn preset_global_proxy() -> (r: Router)
        ensures
            r@ == global_proxy_rules(),
    {
        let mut rules: Vec<RuleItem> = Vec::new();
        rules.push(make_network_rule("global-1", "环回地址直连", "127.0.0.0", 8));
        rules.push(make_final_rule("global-final", "全部走代理", RouteAction::Proxy));
        let r = Router { rules };
        assert(r@ =~= global_proxy_rules());
        r
    }

    /// Everything goes straight to the target.
    pub fn preset_direct_all() -> (r: Router)
        ensures
            r@ == direct_rules(),
    {
        let mut rules: Vec<RuleItem> = Vec::new();
        rules.push(make_final_rule("direct-final", "全部直连", RouteAction::Direct));
        let r = Router { rules };
        assert(r@ =~= direct_rules());
        r
    }
}

impl Default for Router {
    fn default() -> (r: Router)
        ensures
            r@ == smart_rules(),
    {
        Router::preset_smart()
    }
}

impl Clone for Router {
    fn clone(&self) -> (r: Router)
        ensures
            r@ == self@,
    {
        let mut rules: Vec<RuleItem> = Vec::new();
        let mut i: usize = 0;
        while i < self.rules.len()
            invariant
                i <= self.rules@.len(),
                rules@.len() == i,
                forall|j: int| 0 <= j < i ==> (#[trigger] rules@[j])@ == self.rules@[j]@,
            decreases self.rules@.len() - i,
        {
            rules.push(self.rules[i].clone());
            i = i + 1;
        }
        let r = Router { rules };
        assert(r@ =~= self@);
        r
    }
}

// Laws.

proof fn lemma_final_place_bounds(rules: Seq<RuleModel>)
    ensures
        0 <= final_place(rules) <= rules.len(),
        forall|j: int| 0 <= j < final_place(rules) ==> !((#[trigger] rules[j]).pattern is Final),
        final_place(rules) < rules.len() ==> rules[final_place(rules)].pattern is Final,
    decreases rules.len(),
{
    if rules.len() > 0 && !(rules[0].pattern is Final) {
        let t = rules.drop_first();
        lemma_final_place_bounds(t);
        assert forall|j: int| 0 <= j < final_place(rules) implies !((#[trigger] rules[j]).pattern is Final) by {
            if j > 0 {
                assert(!(t[j - 1].pattern is Final));
            }
        }
    }
}

proof fn lemma_id_place_bounds(rules: Seq<RuleModel>, id: Seq<char>)
    ensures
        0 <= id_place(rules, id) <= rules.len(),
        forall|j: int| 0 <= j < id_place(rules, id) ==> (#[trigger] rules[j]).id != id,
        id_place(rules, id) < rules.len() ==> rules[id_place(rules, id)].id == id,
    decreases rules.len(),
{
    if rules.len() > 0 && rules[0].id != id {
        let t = rules.drop_first();
        lemma_id_place_bounds(t, id);
        assert forall|j: int| 0 <= j < id_place(rules, id) implies (#[trigger] rules[j]).id != id by {
            if j > 0 {
                assert(t[j - 1].id != id);
            }
        }
    }
}

/// Rules that do not apply make no difference.
proof fn lemma_skip(rules: Seq<RuleModel>, target: TargetModel, k: int)
    requires
        0 <= k <= rules.len(),
        forall|j: int| 0 <= j < k ==> !(#[trigger] rules[j]).applies(target),
    ensures
        decide(rules, target) == decide(rules.subrange(k, rules.len() as int), target),
    decreases k,
{
    if k == 0 {
        assert(rules.subrange(0, rules.len() as int) =~= rules);
    } else {
        let t = rules.drop_first();
        assert(!rules[0].applies(target));
        assert forall|j: int| 0 <= j < k - 1 implies !(#[trigger] t[j]).applies(target) by {
            assert(!rules[j + 1].applies(target));
        }
        lemma_skip(t, target, k - 1);
        assert(t.subrange(k - 1, t.len() as int) =~= rules.subrange(k, rules.len() as int));
    }
}

/// The first rule that applies decides, whatever stands behind it.
pub proof fn first_applying_rule_decides(rules: Seq<RuleModel>, target: TargetModel, k: int)
    requires
        0 <= k < rules.len(),
        rules[k].applies(target),
        forall|j: int| 0 <= j < k ==> !(#[trigger] rules[j]).applies(target),
    ensures
        decide(rules, target) == rules[k].decision(),
{
    lemma_skip(rules, target, k);
    assert(rules.subrange(k, rules.len() as int)[0] == rules[k]);
}

/// Where no rule applies the connection goes through the proxy.
pub proof fn fallback_is_the_proxy(rules: Seq<RuleModel>, target: TargetModel)
    requires
        forall|j: int| 0 <= j < rules.len() ==> !(#[trigger] rules[j]).applies(target),
    ensures
        decide(rules, target) == fallback(),
        decide(rules, target).action == RouteAction::Proxy,
{
    lemma_skip(rules, target, rules.len() as int);
}

/// A rule that is added decides wherever it applies and nothing before the first rule that matches
/// everything does.
pub proof fn added_rule_decides(rules: Seq<RuleModel>, rule: RuleModel, target: TargetModel)
    requires
        rule.applies(target),
        forall|j: int| 0 <= j < final_place(rules) ==> !(#[trigger] rules[j]).applies(target),
    ensures
        decide(with_rule(rules, rule), target) == rule.decision(),
{
    lemma_final_place_bounds(rules);
    let k = final_place(rules);
    let all = with_rule(rules, rule);
    assert forall|j: int| 0 <= j < k implies !(#[trigger] all[j]).applies(target) by {
        assert(all[j] == rules[j]);
    }
    first_applying_rule_decides(all, target, k);
}

/// A rule that is added makes no difference to the connections that it does not apply to.
pub proof fn added_rule_leaves_the_rest(rules: Seq<RuleModel>, rule: RuleModel, target: TargetModel)
    requires
        !rule.applies(target),
    ensures
        decide(with_rule(rules, rule), target) == decide(rules, target),
{
    lemma_final_place_bounds(rules);
    lemma_insert_idle(rules, final_place(rules), rule, target);
}

proof fn lemma_insert_idle(rules: Seq<RuleModel>, k: int, rule: RuleModel, target: TargetModel)
    requires
        0 <= k <= rules.len(),
        !rule.applies(target),
    ensures
        decide(rules.insert(k, rule), target) == decide(rules, target),
    decreases k,
{
    let all = rules.insert(k, rule);
    if k == 0 {
        assert(all.drop_first() =~= rules);
    } else {
        assert(all.drop_first() =~= rules.drop_first().insert(k - 1, rule));
        lemma_insert_idle(rules.drop_first(), k - 1, rule, target);
    }
}

/// Removing takes back adding, where no rule had the id before.
pub proof fn remove_undoes_add(rules: Seq<RuleModel>, rule: RuleModel)
    requires
        forall|j: int| 0 <= j < rules.len() ==> (#[trigger] rules[j]).id != rule.id,
    ensures
        without_rule(with_rule(rules, rule), rule.id) == rules,
{
    lemma_final_place_bounds(rules);
    let k = final_place(rules);
    let all = with_rule(rules, rule);
    assert forall|j: int| 0 <= j < k implies (#[trigger] all[j]).id != rule.id by {
        assert(all[j] == rules[j]);
    }
    lemma_id_place(all, rule.id, k);
    assert(all.remove(k) =~= rules);
}

/// A rule that is switched off decides nothing: it might as well not be there.
pub proof fn disabled_is_as_good_as_removed(rules: Seq<RuleModel>, id: Seq<char>, target: TargetModel)
    ensures
        decide(with_enabled(rules, id, false), target) == decide(without_rule(rules, id), target),
{
    lemma_id_place_bounds(rules, id);
    let k = id_place(rules, id);
    if k < rules.len() {
        let rest = rules.remove(k);
        let off = RuleModel { enabled: false, ..rules[k] };
        assert(rules.update(k, off) =~= rest.insert(k, off));
        lemma_insert_idle(rest, k, off, target);
    }
}

/// Switching a rule on or off says the same of it however often it is done.
pub proof fn last_switch_counts(rules: Seq<RuleModel>, id: Seq<char>, first: bool, second: bool)
    ensures
        with_enabled(with_enabled(rules, id, first), id, second) == with_enabled(rules, id, second),
{
    lemma_id_place_bounds(rules, id);
    let k = id_place(rules, id);
    if k < rules.len() {
        let once = with_enabled(rules, id, first);
        assert forall|j: int| 0 <= j < k implies (#[trigger] once[j]).id != id by {
            assert(once[j] == rules[j]);
        }
        lemma_id_place(once, id, k);
        assert(with_enabled(once, id, second) =~= with_enabled(rules, id, second));
    }
}

/// With the direct preset every connection goes straight to its target, as its one rule says.
pub proof fn direct_preset_is_direct(target: TargetModel)
    ensures
        decide(direct_rules(), target) == direct_rules()[0].decision(),
        decide(direct_rules(), target).action == RouteAction::Direct,
{
    assert(direct_rules()[0].applies(target));
}

/// The loopback network and the private networks.
pub open spec fn local(ip: Ipv4Addr) -> bool {
    ip.a == 127 || ip.a == 10 || (ip.a == 172 && 16 <= ip.b <= 31) || (ip.a == 192 && ip.b == 168)
}

/// `cn` itself or a name that ends in `.cn`, in whatever case.
pub open spec fn below_cn(host: Seq<char>) -> bool {
    text::lower(host) == seq!['c', 'n'] || text::ends_with(text::lower(host), seq!['.', 'c', 'n'])
}

proof fn lemma_network(t: Seq<char>, net: Ipv4Addr, ip: Ipv4Addr, prefix_len: u8)
    requires
        t == net.text(),
        prefix_len == 8 || prefix_len == 12 || prefix_len == 16,
    ensures
        Ipv4Addr::of_text(t) == Some(net),
        prefix_len == 8 ==> same_network(ip, net, 8) == (ip.a == net.a),
        prefix_len == 12 ==> same_network(ip, net, 12) == (ip.a == net.a && ip.b / 16 == net.b / 16),
        prefix_len == 16 ==> same_network(ip, net, 16) == (ip.a == net.a && ip.b == net.b),
{
    crate::net::ipv4_of_its_text(net);
    lemma2_to64();
    assert(pow2(24) == 0x100_0000);
    assert(pow2(20) == 0x10_0000);
    assert(pow2(16) == 0x1_0000);
    assert(same_network(ip, net, 8) == (ip.number() / 0x100_0000 == net.number() / 0x100_0000));
    assert(same_network(ip, net, 12) == (ip.number() / 0x10_0000 == net.number() / 0x10_0000));
    assert(same_network(ip, net, 16) == (ip.number() / 0x1_0000 == net.number() / 0x1_0000));
    lemma_leading_parts(ip);
    lemma_leading_parts(net);
}

proof fn lemma_leading_parts(ip: Ipv4Addr)
    ensures
        ip.number() / 0x100_0000 == ip.a,
        ip.number() / 0x10_0000 == ip.a * 16 + ip.b / 16,
        ip.number() / 0x1_0000 == ip.a * 256 + ip.b,
{
}

proof fn lemma_preset_networks()
    ensures
        "127.0.0.0"@ == (Ipv4Addr { a: 127, b: 0, c: 0, d: 0 }).text(),
        "10.0.0.0"@ == (Ipv4Addr { a: 10, b: 0, c: 0, d: 0 }).text(),
        "172.16.0.0"@ == (Ipv4Addr { a: 172, b: 16, c: 0, d: 0 }).text(),
        "192.168.0.0"@ == (Ipv4Addr { a: 192, b: 168, c: 0, d: 0 }).text(),
{
    reveal_strlit("127.0.0.0");
    reveal_strlit("10.0.0.0");
    reveal_strlit("172.16.0.0");
    reveal_strlit("192.168.0.0");
    reveal_with_fuel(text::dec, 3);
    assert("127.0.0.0"@ =~= (Ipv4Addr { a: 127, b: 0, c: 0, d: 0 }).text());
    assert("10.0.0.0"@ =~= (Ipv4Addr { a: 10, b: 0, c: 0, d: 0 }).text());
    assert("172.16.0.0"@ =~= (Ipv4Addr { a: 172, b: 16, c: 0, d: 0 }).text());
    assert("192.168.0.0"@ =~= (Ipv4Addr { a: 192, b: 168, c: 0, d: 0 }).text());
}

/// With the smart preset a connection goes straight to its target where that is a loopback or a
/// private address or a name in `.cn`, and through the proxy otherwise.
pub proof fn smart_preset_splits(target: TargetModel)
    ensures
        decide(smart_rules(), target).action == (if (target.ipv4() is Some && local(target.ipv4()->0)) || below_cn(
            target.host(),
        ) {
            RouteAction::Direct
        } else {
            RouteAction::Proxy
        }),
{
    lemma_preset_networks();
    let ip = match target.ipv4() {
        Some(ip) => ip,
        None => arbitrary(),
    };
    lemma_network("127.0.0.0"@, Ipv4Addr { a: 127, b: 0, c: 0, d: 0 }, ip, 8);
    lemma_network("10.0.0.0"@, Ipv4Addr { a: 10, b: 0, c: 0, d: 0 }, ip, 8);
    lemma_network("172.16.0.0"@, Ipv4Addr { a: 172, b: 16, c: 0, d: 0 }, ip, 12);
    lemma_network("192.168.0.0"@, Ipv4Addr { a: 192, b: 168, c: 0, d: 0 }, ip, 16);
    reveal_strlit("cn");
    reveal_with_fuel(text::strip_start, 1);
    assert(text::lower(text::strip_start("cn"@, '.')) =~= seq!['c', 'n']);
    assert(seq!['.'] + seq!['c', 'n'] =~= seq!['.', 'c', 'n']);
    let rules = smart_rules();
    assert(rules[4].applies(target) == below_cn(target.host()));
    if rules[0].applies(target) {
        first_applying_rule_decides(rules, target, 0);
    } else if rules[1].applies(target) {
        first_applying_rule_decides(rules, target, 1);
    } else if rules[2].applies(target) {
        first_applying_rule_decides(rules, target, 2);
    } else if rules[3].applies(target) {
        first_applying_rule_decides(rules, target, 3);
    } else if rules[4].applies(target) {
        first_applying_rule_decides(rules, target, 4);
    } else {
        first_applying_rule_decides(rules, target, 5);
    }
}

/// With the global preset a connection goes straight to its target where that is a loopback address,
/// and through the proxy otherwise.
pub proof fn global_preset_proxies(target: TargetModel)
    ensures
        decide(global_proxy_rules(), target).action == (if target.ipv4() is Some && target.ipv4()->0.loopback() {
            RouteAction::Direct
        } else {
            RouteAction::Proxy
        }),
{
    lemma_preset_networks();
    let ip = match target.ipv4() {
        Some(ip) => ip,
        None => arbitrary(),
    };
    lemma_network("127.0.0.0"@, Ipv4Addr { a: 127, b: 0, c: 0, d: 0 }, ip, 8);
    let rules = global_proxy_rules();
    if rules[0].applies(target) {
        first_applying_rule_decides(rules, target, 0);
    } else {
        first_applying_rule_decides(rules, target, 1);
    }
}

proof fn lemma_not_below_cn(host: Seq<char>)
    requires
        host.len() > 0,
        text::lower_char(host.last()) != 'n',
    ensures
        !below_cn(host),
{
    let h = text::lower(host);
    assert(h.len() == host.len());
    assert(h.last() == text::lower_char(host.last()));
    if h == seq!['c', 'n'] {
        assert(h.last() == 'n');
    }
    if text::ends_with(h, seq!['.', 'c', 'n']) {
        assert(h.subrange(h.len() - 3, h.len() as int)[2] == h.last());
        assert(seq!['.', 'c', 'n'][2] == 'n');
    }
}

proof fn lemma_group_text_end(g: Seq<u16>)
    requires
        g.len() > 0,
    ensures
        crate::net::group_text(g).len() > 0,
        text::lower_char(crate::net::group_text(g).last()) != 'n',
{
    let h = text::hex(g.last() as nat);
    assert(h.len() > 0 && text::lower_char(h.last()) != 'n');
    assert(crate::net::group_text(g).last() == h.last());
}

/// An address is never taken for a name in `.cn`: with the smart preset only its network counts.
pub proof fn address_is_not_below_cn(sa: SocketAddr)
    ensures
        !below_cn(sa.host()),
{
    match sa {
        SocketAddr::V4(v4) => {
            text::dec_is_read_back(v4.ip.d as nat, 255);
            let d = text::dec(v4.ip.d as nat);
            assert(text::is_digit(d[d.len() - 1]));
            assert(v4.ip.text().last() == d.last());
            lemma_not_below_cn(v4.ip.text());
        },
        SocketAddr::V6(v6) => {
            let t = v6.ip.text();
            match v6.ip.mapped() {
                Some(ip) => {
                    text::dec_is_read_back(ip.d as nat, 255);
                    let d = text::dec(ip.d as nat);
                    assert(text::is_digit(d[d.len() - 1]));
                    assert(t.last() == d.last());
                },
                None => {
                    let g = v6.ip.groups();
                    let (start, len) = crate::net::longest_zeros(g, 0);
                    if len > 1 {
                        let rest = g.subrange(start + len, 8);
                        if rest.len() > 0 {
                            lemma_group_text_end(rest);
                        } else {
                            assert(crate::net::group_text(rest) =~= Seq::empty());
                            assert(t.last() == ':');
                        }
                    } else {
                        lemma_group_text_end(g);
                    }
                },
            }
            lemma_not_below_cn(t);
        },
    }
}

/// A rule for one port applies where it is on and the connection goes to that port, and one for a range where
/// the port is neither below its start nor above its end; what the connection goes to makes no difference.
pub proof fn port_rules_go_by_the_port(rule: RuleModel, host: Seq<char>, v4: SocketAddrV4, v6: SocketAddrV6, port: u16)
    requires
        v4.port == port,
        v6.port == port,
    ensures
        ({
            let wanted = rule.enabled && match rule.pattern {
                PatternModel::Port(p) => p == port,
                PatternModel::PortRange { start, end } => !(port < start) && !(port > end),
                _ => arbitrary(),
            };
            rule.pattern is Port || rule.pattern is PortRange ==> {
                &&& rule.applies(TargetModel::Domain(host, port)) == wanted
                &&& rule.applies(TargetModel::Ip(SocketAddr::V4(v4))) == wanted
                &&& rule.applies(TargetModel::Ip(SocketAddr::V6(v6))) == wanted
            }
        }),
{
}

/// A rule for one port is a rule for the range of that port alone, and a range is the sum of its parts.
pub proof fn ranges_are_made_of_ports(rule: RuleModel, a: u16, b: u16, c: u16, target: TargetModel)
    requires
        a <= b < c,
    ensures
        ({
            let on = |p: PatternModel| RuleModel { pattern: p, ..rule }.applies(target);
            &&& on(PatternModel::Port(a)) == on(PatternModel::PortRange { start: a, end: a })
            &&& on(PatternModel::PortRange { start: a, end: c }) == (on(PatternModel::PortRange { start: a, end: b })
                || on(PatternModel::PortRange { start: (b + 1) as u16, end: c }))
            &&& !on(PatternModel::PortRange { start: c, end: a })
        }),
{
}

/// The rule that matches everything applies wherever it is on; a rule that is off applies nowhere.
pub proof fn switch_and_final_rule(rule: RuleModel, target: TargetModel)
    ensures
        rule.pattern is Final && rule.enabled ==> rule.applies(target),
        !rule.enabled ==> !rule.applies(target),
{
}

/// A rule for one name applies to that name in any case, and to no other.
pub proof fn exact_rules_go_by_the_name(rule: RuleModel, name: Seq<char>, host: Seq<char>, port: u16)
    requires
        rule.pattern == PatternModel::DomainExact(name),
    ensures
        rule.applies(TargetModel::Domain(host, port)) <==> rule.enabled && text::letters_agree(host, name),
{
    text::case_is_set_aside(host, name);
}

/// A rule for a keyword applies to the names that hold it somewhere, in any case, and to no other.
pub proof fn keyword_rules_go_by_a_part(rule: RuleModel, word: Seq<char>, host: Seq<char>, port: u16)
    requires
        rule.pattern == PatternModel::DomainKeyword(word),
    ensures
        rule.applies(TargetModel::Domain(host, port)) <==> rule.enabled && exists|i: int|
            0 <= i <= host.len() - word.len() && text::letters_agree(#[trigger] host.subrange(i, i + word.len()), word),
{
    let h = text::lower(host);
    let w = text::lower(word);
    if text::contains(h, w) {
        let i = choose|i: int| text::occurs_at(h, w, i);
        let part = host.subrange(i, i + word.len());
        assert(text::lower(part) =~= h.subrange(i, i + w.len()));
        text::case_is_set_aside(part, word);
    }
    if exists|i: int|
        0 <= i <= host.len() - word.len() && text::letters_agree(#[trigger] host.subrange(i, i + word.len()), word) {
        let i = choose|i: int|
            0 <= i <= host.len() - word.len() && text::letters_agree(#[trigger] host.subrange(i, i + word.len()), word);
        let part = host.subrange(i, i + word.len());
        text::case_is_set_aside(part, word);
        assert(text::lower(part) =~= h.subrange(i, i + w.len()));
        assert(text::occurs_at(h, w, i));
    }
}

/// A rule for a domain applies to the domain itself and to what ends in a dot and the domain, in any case, and
/// to no other name. Dots before the domain are no part of it.
pub proof fn suffix_rules_go_by_the_end(rule: RuleModel, dots: nat, domain: Seq<char>, host: Seq<char>, port: u16)
    requires
        domain.len() > 0 ==> domain[0] != '.',
        rule.pattern == PatternModel::DomainSuffix(Seq::new(dots, |i: int| '.') + domain),
    ensures
        rule.applies(TargetModel::Domain(host, port)) <==> rule.enabled && {
            let n = host.len() - domain.len();
            ||| text::letters_agree(host, domain)
            ||| n >= 1 && host[n - 1] == '.' && text::letters_agree(host.subrange(n, host.len() as int), domain)
        },
{
    let whole = Seq::new(dots, |i: int| '.') + domain;
    let k = text::strip_takes_the_run(whole, '.');
    if k < dots {
        assert(whole[k as int] == '.');
    }
    if k > dots {
        assert(whole[dots as int] == domain[0]);
        assert(whole[dots as int] == '.');
    }
    assert(whole.subrange(dots as int, whole.len() as int) =~= domain);
    let h = text::lower(host);
    let d = text::lower(domain);
    text::case_is_set_aside(host, domain);
    let n = host.len() - domain.len();
    let dotted = seq!['.'] + d;
    if n >= 1 {
        let part = host.subrange(n, host.len() as int);
        text::case_is_set_aside(part, domain);
        assert(text::lower(part) =~= h.subrange(n, h.len() as int));
        let tail = h.subrange(h.len() - dotted.len(), h.len() as int);
        assert(tail[0] == h[n - 1]);
        assert(tail.drop_first() =~= h.subrange(n, h.len() as int));
        assert(dotted.drop_first() =~= d);
        assert(tail =~= seq![tail[0]] + tail.drop_first());
        if tail == dotted {
            assert(dotted[0] == '.');
            assert(text::lower_char(host[n - 1]) == '.');
            assert(host[n - 1] == '.');
        }
    }
}

/// A rule for a network applies to an IPv4 address, given as such or as its text, where the addresses of the
/// network's size that start at a multiple of it hold both; no network of more than 32 bits applies, and none
/// applies to an IPv6 address or to a name that is no address.
pub proof fn network_rules_go_by_the_block(
    rule: RuleModel,
    net: Ipv4Addr,
    prefix_len: u8,
    ip: Ipv4Addr,
    port: u16,
    v6: SocketAddrV6,
    host: Seq<char>,
)
    requires
        rule.pattern == (PatternModel::IpCidr { ip: net.text(), prefix_len }),
    ensures
        ({
            let inside = prefix_len <= 32 && exists|k: int| #[trigger]
                in_block(k, prefix_len, ip) && in_block(k, prefix_len, net);
            &&& rule.applies(TargetModel::Ip(SocketAddr::V4(SocketAddrV4 { ip, port }))) == (rule.enabled && inside)
            &&& rule.applies(TargetModel::Domain(ip.text(), port)) == (rule.enabled && inside)
        }),
        !rule.applies(TargetModel::Ip(SocketAddr::V6(v6))),
        (forall|other: Ipv4Addr| #[trigger] other.text() != host) ==> !rule.applies(TargetModel::Domain(host, port)),
{
    crate::net::ipv4_of_its_text(net);
    crate::net::ipv4_of_its_text(ip);
    if prefix_len <= 32 {
        let size = pow2((32 - prefix_len) as nat) as int;
        lemma_pow2_pos((32 - prefix_len) as nat);
        let x = ip.number() as int;
        let y = net.number() as int;
        vstd::arithmetic::div_mod::lemma_fundamental_div_mod(x, size);
        vstd::arithmetic::div_mod::lemma_fundamental_div_mod(y, size);
        vstd::arithmetic::div_mod::lemma_mod_bound(x, size);
        vstd::arithmetic::div_mod::lemma_mod_bound(y, size);
        vstd::arithmetic::mul::lemma_mul_is_commutative(size, x / size);
        vstd::arithmetic::mul::lemma_mul_is_commutative(size, y / size);
        assert(in_block(x / size, prefix_len, ip)) by {
            vstd::arithmetic::mul::lemma_mul_is_distributive_add_other_way(size, x / size, 1);
        }
        assert(in_block(y / size, prefix_len, net)) by {
            vstd::arithmetic::mul::lemma_mul_is_distributive_add_other_way(size, y / size, 1);
        }
        if exists|k: int| #[trigger] in_block(k, prefix_len, ip) && in_block(k, prefix_len, net) {
            let k = choose|k: int| #[trigger] in_block(k, prefix_len, ip) && in_block(k, prefix_len, net);
            lemma_block(k, size, x);
            lemma_block(k, size, y);
        }
    }
}

/// The address is one of the `k`th block of as many addresses as the network has.
pub open spec fn in_block(k: int, prefix_len: u8, ip: Ipv4Addr) -> bool {
    let size = pow2((32 - prefix_len) as nat) as int;
    k * size <= ip.number() < (k + 1) * size
}

proof fn lemma_block(k: int, size: int, x: int)
    requires
        size > 0,
        k * size <= x < (k + 1) * size,
    ensures
        x / size == k,
{
    vstd::arithmetic::mul::lemma_mul_is_distributive_add_other_way(size, k, 1);
    vstd::arithmetic::div_mod::lemma_fundamental_div_mod_converse(x, size, k, x - k * size);
}

/// Whole octets: a network of 8, 16, 24 or 32 bits goes by the first one, two, three or four, and one of no
/// bits holds every address.
pub proof fn networks_of_whole_octets(ip: Ipv4Addr, net: Ipv4Addr)
    ensures
        same_network(ip, net, 0),
        same_network(ip, net, 8) <==> ip.a == net.a,
        same_network(ip, net, 16) <==> ip.a == net.a && ip.b == net.b,
        same_network(ip, net, 24) <==> ip.a == net.a && ip.b == net.b && ip.c == net.c,
        same_network(ip, net, 32) <==> ip == net,
{
    lemma2_to64();
    assert(pow2(32) == 0x1_0000_0000);
    assert(pow2(24) == 0x100_0000);
    assert(pow2(16) == 0x1_0000);
    assert(pow2(8) == 0x100);
    assert(pow2(0) == 1);
    lemma_leading_parts(ip);
    lemma_leading_parts(net);
    assert(ip.number() / 0x1_0000_0000 == 0);
    assert(net.number() / 0x1_0000_0000 == 0);
    assert(ip.number() / 0x100 == (ip.a * 256 + ip.b) * 256 + ip.c);
    assert(net.number() / 0x100 == (net.a * 256 + net.b) * 256 + net.c);
    assert(same_network(ip, net, 0));
    assert(same_network(ip, net, 8) == (ip.number() / 0x100_0000 == net.number() / 0x100_0000));
    assert(same_network(ip, net, 16) == (ip.number() / 0x1_0000 == net.number() / 0x1_0000));
    assert(same_network(ip, net, 24) == (ip.number() / 0x100 == net.number() / 0x100));
    assert(same_network(ip, net, 32) == (ip.number() / 1 == net.number() / 1));
}

/// A decision names the rule and does what it says; where no rule applies it is the proxy.
pub proof fn decision_is_that_of_its_rule(rules: Seq<RuleModel>, target: TargetModel)
    ensures
        (exists|k: int|
            0 <= k < rules.len() && (#[trigger] rules[k]).applies(target) && decide(rules, target).action
                == rules[k].action && decide(rules, target).rule_name == rules[k].name && forall|j: int|
                0 <= j < k ==> !(#[trigger] rules[j]).applies(target)) || (decide(rules, target).action
            == RouteAction::Proxy && forall|j: int| 0 <= j < rules.len() ==> !(#[trigger] rules[j]).applies(target)),
    decreases rules.len(),
{
    if rules.len() > 0 {
        if rules[0].applies(target) {
            assert(rules[0].decision().action == rules[0].action);
        } else {
            let t = rules.drop_first();
            decision_is_that_of_its_rule(t, target);
            if exists|k: int|
                0 <= k < t.len() && (#[trigger] t[k]).applies(target) && decide(t, target).action == t[k].action
                    && decide(t, target).rule_name == t[k].name && forall|j: int|
                    0 <= j < k ==> !(#[trigger] t[j]).applies(target) {
                let k = choose|k: int|
                    0 <= k < t.len() && (#[trigger] t[k]).applies(target) && decide(t, target).action == t[k].action
                        && decide(t, target).rule_name == t[k].name && forall|j: int|
                        0 <= j < k ==> !(#[trigger] t[j]).applies(target);
                assert(rules[k + 1] == t[k]);
                assert forall|j: int| 0 <= j < k + 1 implies !(#[trigger] rules[j]).applies(target) by {
                    if j > 0 {
                        assert(!t[j - 1].applies(target));
                    }
                }
            } else {
                assert forall|j: int| 0 <= j < rules.len() implies !(#[trigger] rules[j]).applies(target) by {
                    if j > 0 {
                        assert(!t[j - 1].applies(target));
                    }
                }
            }
        }
    }
}

/// The pattern that a decision shows holds the rule's own text or numbers.
pub proof fn patterns_show_what_they_hold(s: Seq<char>, n: u16, m: u16, bits: u8)
    ensures
        pattern_text(PatternModel::DomainSuffix(s)) == seq!['*', '.'] + s,
        pattern_text(PatternModel::DomainKeyword(s)) == seq!['K', 'e', 'y', 'w', 'o', 'r', 'd', '('] + s + seq![')'],
        pattern_text(PatternModel::DomainExact(s)) == seq!['E', 'x', 'a', 'c', 't', '('] + s + seq![')'],
        pattern_text(PatternModel::IpCidr { ip: s, prefix_len: bits }) == s + seq!['/'] + text::dec(bits as nat),
        pattern_text(PatternModel::Port(n)) == seq!['P', 'o', 'r', 't', '('] + text::dec(n as nat) + seq![')'],
        pattern_text(PatternModel::PortRange { start: n, end: m }) == seq!['P', 'o', 'r', 't', '('] + text::dec(n as nat)
            + seq!['-'] + text::dec(m as nat) + seq![')'],
        pattern_text(PatternModel::Final) == seq!['F', 'I', 'N', 'A', 'L'],
{
    reveal_strlit("*.");
    reveal_strlit("Keyword(");
    reveal_strlit("Exact(");
    reveal_strlit("Port(");
    reveal_strlit(")");
    reveal_strlit("/");
    reveal_strlit("-");
    reveal_strlit("FINAL");
    assert("*."@ =~= seq!['*', '.']);
    assert("Keyword("@ =~= seq!['K', 'e', 'y', 'w', 'o', 'r', 'd', '(']);
    assert("Exact("@ =~= seq!['E', 'x', 'a', 'c', 't', '(']);
    assert("Port("@ =~= seq!['P', 'o', 'r', 't', '(']);
    assert(")"@ =~= seq![')']);
    assert("/"@ =~= seq!['/']);
    assert("-"@ =~= seq!['-']);
    assert("FINAL"@ =~= seq!['F', 'I', 'N', 'A', 'L']);
}

/// An added rule stands before the first rule that matches everything, or last; the others keep their order.
pub proof fn added_rule_finds_its_place(rules: Seq<RuleModel>, rule: RuleModel) -> (k: int)
    ensures
        0 <= k <= rules.len(),
        with_rule(rules, rule) == rules.subrange(0, k) + seq![rule] + rules.subrange(k, rules.len() as int),
        forall|j: int| 0 <= j < k ==> !((#[trigger] rules[j]).pattern is Final),
        k < rules.len() ==> rules[k].pattern is Final,
{
    lemma_final_place_bounds(rules);
    let k = final_place(rules);
    assert(with_rule(rules, rule) =~= rules.subrange(0, k) + seq![rule] + rules.subrange(k, rules.len() as int));
    k
}

/// The first rule with the id is removed or switched, and no other; without one nothing changes. Whether
/// there is one is what removing and switching report.
pub proof fn rules_are_found_by_their_id(rules: Seq<RuleModel>, id: Seq<char>, enabled: bool) -> (k: int)
    ensures
        0 <= k <= rules.len(),
        forall|j: int| 0 <= j < k ==> (#[trigger] rules[j]).id != id,
        k < rules.len() ==> rules[k].id == id,
        (id_place(rules, id) < rules.len()) == (k < rules.len()),
        k < rules.len() ==> without_rule(rules, id) == rules.subrange(0, k) + rules.subrange(k + 1, rules.len() as int),
        k < rules.len() ==> with_enabled(rules, id, enabled) == rules.subrange(0, k) + seq![
            RuleModel { enabled, ..rules[k] },
        ] + rules.subrange(k + 1, rules.len() as int),
        k == rules.len() ==> without_rule(rules, id) == rules && with_enabled(rules, id, enabled) == rules,
{
    lemma_id_place_bounds(rules, id);
    let k = id_place(rules, id);
    if k < rules.len() {
        assert(without_rule(rules, id) =~= rules.subrange(0, k) + rules.subrange(k + 1, rules.len() as int));
        assert(with_enabled(rules, id, enabled) =~= rules.subrange(0, k) + seq![RuleModel { enabled, ..rules[k] }]
            + rules.subrange(k + 1, rules.len() as int));
    }
    k
}

proof fn lemma_small_letter(c: char, small: char)
    requires
        text::lower_char(c) == small,
        'a' <= small <= 'z',
    ensures
        c == small || c as int + 32 == small as int,
{
}

/// The presets by the target: an IPv4 address, given as such or as its text, an IPv6 address and a name.
pub proof fn presets_by_the_target(ip: Ipv4Addr, v6: SocketAddrV6, host: Seq<char>, port: u16)
    ensures
        ({
            let smart = |t: TargetModel| decide(smart_rules(), t).action;
            let global = |t: TargetModel| decide(global_proxy_rules(), t).action;
            let direct = |t: TargetModel| decide(direct_rules(), t).action;
            let a = TargetModel::Ip(SocketAddr::V4(SocketAddrV4 { ip, port }));
            let b = TargetModel::Domain(ip.text(), port);
            let c = TargetModel::Ip(SocketAddr::V6(v6));
            let d = TargetModel::Domain(host, port);
            let near = ip.a == 127 || ip.a == 10 || (ip.a == 172 && 16 <= ip.b <= 31) || (ip.a == 192 && ip.b == 168);
            let n = host.len() as int;
            let chinese = n >= 2 && (host[n - 2] == 'c' || host[n - 2] == 'C') && (host[n - 1] == 'n' || host[n - 1]
                == 'N') && (n == 2 || host[n - 3] == '.');
            let go = |direct: bool| if direct {
                RouteAction::Direct
            } else {
                RouteAction::Proxy
            };
            &&& smart(a) == go(near) && smart(b) == go(near) && smart(c) == go(false)
            &&& global(a) == go(ip.a == 127) && global(b) == go(ip.a == 127) && global(c) == go(false)
            &&& (forall|other: Ipv4Addr| #[trigger] other.text() != host) ==> smart(d) == go(chinese) && global(d) == go(
                false,
            )
            &&& direct(a) == go(true) && direct(b) == go(true) && direct(c) == go(true) && direct(d) == go(true)
        }),
{
    let a = TargetModel::Ip(SocketAddr::V4(SocketAddrV4 { ip, port }));
    let b = TargetModel::Domain(ip.text(), port);
    let c = TargetModel::Ip(SocketAddr::V6(v6));
    let d = TargetModel::Domain(host, port);
    crate::net::ipv4_of_its_text(ip);
    smart_preset_splits(a);
    smart_preset_splits(b);
    smart_preset_splits(c);
    smart_preset_splits(d);
    global_preset_proxies(a);
    global_preset_proxies(b);
    global_preset_proxies(c);
    global_preset_proxies(d);
    direct_preset_is_direct(a);
    direct_preset_is_direct(b);
    direct_preset_is_direct(c);
    direct_preset_is_direct(d);
    address_is_not_below_cn(SocketAddr::V4(SocketAddrV4 { ip, port }));
    address_is_not_below_cn(SocketAddr::V6(v6));
    let h = text::lower(host);
    let n = host.len() as int;
    if n >= 3 {
        let tail = h.subrange(n - 3, n);
        assert(tail[0] == h[n - 3] && tail[1] == h[n - 2] && tail[2] == h[n - 1]);
        assert(tail =~= seq![h[n - 3], h[n - 2], h[n - 1]]);
        assert(seq!['.', 'c', 'n'][0] == '.' && seq!['.', 'c', 'n'][1] == 'c' && seq!['.', 'c', 'n'][2] == 'n');
    }
    if n == 2 {
        assert(h =~= seq![h[0], h[1]]);
        assert(seq!['c', 'n'][0] == 'c' && seq!['c', 'n'][1] == 'n');
    }
    let chinese = n >= 2 && (host[n - 2] == 'c' || host[n - 2] == 'C') && (host[n - 1] == 'n' || host[n - 1] == 'N') && (n
        == 2 || host[n - 3] == '.');
    assert(n >= 2 ==> h[n - 2] == text::lower_char(host[n - 2]));
    assert(n >= 2 ==> h[n - 1] == text::lower_char(host[n - 1]));
    assert(n >= 3 ==> h[n - 3] == text::lower_char(host[n - 3]));
    assert(chinese ==> below_cn(host));
    if below_cn(host) {
        if h == seq!['c', 'n'] {
            assert(h.len() == 2);
            lemma_small_letter(host[0], 'c');
            lemma_small_letter(host[1], 'n');
        } else {
            assert(text::ends_with(h, seq!['.', 'c', 'n']));
            lemma_small_letter(host[n - 2], 'c');
            lemma_small_letter(host[n - 1], 'n');
        }
    }
    if forall|other: Ipv4Addr| #[trigger] other.text() != host {
        assert(Ipv4Addr::of_text(host) is None);
        assert(d.ipv4() is None);
    }
}

/// What an action is shown as.
pub proof fn actions_are_shown(action: RouteAction)
    ensures
        action.text() == (match action {
            RouteAction::Direct => seq!['D', 'I', 'R', 'E', 'C', 'T'],
            RouteAction::Proxy => seq!['P', 'R', 'O', 'X', 'Y'],
            RouteAction::Block => seq!['B', 'L', 'O', 'C', 'K'],
        }),
{
    reveal_strlit("DIRECT");
    reveal_strlit("PROXY");
    reveal_strlit("BLOCK");
    assert("DIRECT"@ =~= seq!['D', 'I', 'R', 'E', 'C', 'T']);
    assert("PROXY"@ =~= seq!['P', 'R', 'O', 'X', 'Y']);
    assert("BLOCK"@ =~= seq!['B', 'L', 'O', 'C', 'K']);
}

/// A rule sees an address as it sees the text of the address; a network that is written otherwise than an IPv4
/// address holds nothing.
pub proof fn addresses_are_matched_by_their_text(
    rule: RuleModel,
    v4: SocketAddrV4,
    v6: SocketAddrV6,
    net: Seq<char>,
    prefix_len: u8,
    target: TargetModel,
)
    ensures
        rule.applies(TargetModel::Ip(SocketAddr::V4(v4))) == rule.applies(TargetModel::Domain(v4.ip.text(), v4.port)),
        !(rule.pattern is IpCidr) ==> rule.applies(TargetModel::Ip(SocketAddr::V6(v6))) == rule.applies(
            TargetModel::Domain(v6.ip.text(), v6.port),
        ),
        rule.pattern == (PatternModel::IpCidr { ip: net, prefix_len }) && (forall|ip: Ipv4Addr| #[trigger] ip.text()
            != net) ==> !rule.applies(target),
{
    crate::net::ipv4_of_its_text(v4.ip);
}

/// A decision shows the rule that it comes from: its action, its name and its pattern.
pub proof fn decisions_show_their_rule(rule: RuleModel, target: TargetModel)
    ensures
        rule.decision().action == rule.action,
        rule.decision().rule_name == rule.name,
        rule.decision().pattern_desc == pattern_text(rule.pattern),
        rule.applies(target) ==> decide(seq![rule], target) == rule.decision(),
{
    if rule.applies(target) {
        first_applying_rule_decides(seq![rule], target, 0);
    }
}

} // verus!
