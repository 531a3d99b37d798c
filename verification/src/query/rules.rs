//! The game rules query.

use crate::error::Error;
use crate::reader::{Reader, Scan};
use vstd::prelude::*;

verus! {

/// The header byte of a rules request, `V`.
pub const RULES_REQUEST_HEADER: u8 = 0x56;

/// The header byte of a rules response, `E`.
pub const RULES_RESPONSE_HEADER: u8 = 0x45;

/// One rule: a name and its value, both free text.
#[derive(Debug, Clone, PartialEq, Eq)]
pub struct RuleInfo {
    pub name: String,
    pub value: String,
}

/// A `RuleInfo` with its texts as sequences of characters.
pub struct RuleInfoView {
    pub name: Seq<char>,
    pub value: Seq<char>,
}

impl View for RuleInfo {
    type V = RuleInfoView;

    open spec fn view(&self) -> RuleInfoView {
        RuleInfoView { name: self.name@, value: self.value@ }
    }
}

/// The rules of a server.
#[derive(Debug, Clone, PartialEq, Eq)]
pub struct Rules {
    pub nb_rules: i16,
    pub rules: Vec<RuleInfo>,
}

/// A `Rules` with its records as a sequence of views.
pub struct RulesView {
    pub nb_rules: i16,
    pub rules: Seq<RuleInfoView>,
}

/// The views of the records of `rules`, in order.
pub open spec fn rule_views(rules: Seq<RuleInfo>) -> Seq<RuleInfoView> {
    Seq::new(rules.len(), |i: int| rules[i]@)
}

impl View for Rules {
    type V = RulesView;

    open spec fn view(&self) -> RulesView {
        RulesView { nb_rules: self.nb_rules, rules: rule_views(self.rules@) }
    }
}

/// The rule that stands at `c`: a name, then a value.
pub open spec fn rule_at(c: Scan) -> RuleInfoView {
    RuleInfoView { name: c.text(), value: c.skip_text().text() }
}

/// The scan after the rule at `c` was taken.
pub open spec fn after_rule(c: Scan) -> Scan {
    c.skip_text().skip_text()
}

/// The `n` rules that stand at `c`, in order.
pub open spec fn rules_at(c: Scan, n: nat) -> Seq<RuleInfoView>
    decreases n,
{
    if n == 0 {
        Seq::empty()
    } else {
        seq![rule_at(c)] + rules_at(after_rule(c), (n - 1) as nat)
    }
}

/// The scan after `n` rules were taken from `c`, or the scan at which reading them stopped.
pub open spec fn after_rules(c: Scan, n: nat) -> Scan
    decreases n,
{
    if n == 0 || !c.ok() {
        c
    } else {
        after_rules(after_rule(c), (n - 1) as nat)
    }
}

/// What the bytes of a rules response mean: the header byte `E`, a signed count of two
/// bytes, and that many pairs of name and value. A negative count is refused with
/// `InvalidResponse`. Bytes after the last pair are not looked at.
pub open spec fn parse_rules(bytes: Seq<u8>) -> Result<RulesView, Error> {
    let at_header = Scan::start(bytes);
    let header = at_header.byte();
    let at_count = at_header.skip(1).require(
        header == RULES_RESPONSE_HEADER,
        Error::InvalidResponse,
    );
    let count = at_count.int16();
    let at_records = at_count.skip(2).require(count >= 0, Error::InvalidResponse);
    outcome(count, at_records)
}

/// The list of `count` rules that stand at `at_records`, or the error that stops the
/// reading of them.
pub open spec fn outcome(count: i16, at_records: Scan) -> Result<RulesView, Error> {
    let n: nat = if count >= 0 {
        count as nat
    } else {
        0
    };
    match after_rules(at_records, n).failure {
        Some(e) => Err(e),
        None => Ok(RulesView { nb_rules: count, rules: rules_at(at_records, n) }),
    }
}

proof fn lemma_rules_len(c: Scan, n: nat)
    ensures
        rules_at(c, n).len() == n,
    decreases n,
{
    if n > 0 {
        lemma_rules_len(after_rule(c), (n - 1) as nat);
    }
}

/// A successfully decoded list has a count that is not negative and holds exactly
/// that many pairs, also where the count does not fit in one byte.
pub proof fn lemma_rules_count(bytes: Seq<u8>)
    requires
        parse_rules(bytes) is Ok,
    ensures
        parse_rules(bytes).unwrap().nb_rules >= 0,
        parse_rules(bytes).unwrap().rules.len() == parse_rules(bytes).unwrap().nb_rules,
{
    let at_count = Scan::start(bytes).skip(1).require(
        Scan::start(bytes).byte() == RULES_RESPONSE_HEADER,
        Error::InvalidResponse,
    );
    let count = at_count.int16();
    let at_records = at_count.skip(2).require(count >= 0, Error::InvalidResponse);
    if count >= 0 {
        lemma_rules_len(at_records, count as nat);
    }
}

fn read_rule(reader: &mut Reader) -> (r: Result<RuleInfo, Error>)
    ensures
        match r {
            Ok(rule) => after_rule(old(reader).scan()).ok() && rule@ == rule_at(
                old(reader).scan(),
            ) && final(reader)@ == after_rule(old(reader).scan()).rest,
            Err(e) => after_rule(old(reader).scan()).failure == Some(e),
        },
{
    let name = reader.read_cstring()?;
    let value = reader.read_cstring()?;
    Ok(RuleInfo { name, value })
}

impl Rules {
    /// Decodes the payload of a rules response.
    pub fn decode(data: &[u8]) -> (r: Result<Rules, Error>)
        ensures
            match parse_rules(data@) {
                Ok(view) => r matches Ok(list) && list@ == view,
                Err(e) => r matches Err(f) && f == e,
            },
    {
        let mut reader = Reader::new(data);
        let header = reader.read_u8()?;
        if header != RULES_RESPONSE_HEADER {
            return Err(Error::InvalidResponse);
        }
        let nb_rules = reader.read_i16()?;
        if nb_rules < 0 {
            return Err(Error::InvalidResponse);
        }
        let ghost at_records = reader.scan();
        let mut rules: Vec<RuleInfo> = Vec::new();
        let mut i: i16 = 0;
        while i < nb_rules
            invariant
                0 <= i <= nb_rules,
                parse_rules(data@) == outcome(nb_rules, at_records),
                rules@.len() == i,
                after_rules(at_records, nb_rules as nat) == after_rules(
                    reader.scan(),
                    (nb_rules - i) as nat,
                ),
                rules_at(at_records, nb_rules as nat) == rule_views(rules@) + rules_at(
                    reader.scan(),
                    (nb_rules - i) as nat,
                ),
            decreases nb_rules - i,
        {
            let ghost before = reader.scan();
            let ghost earlier = rule_views(rules@);
            match read_rule(&mut reader) {
                Err(e) => {
                    assert(after_rules(after_rule(before), (nb_rules - i - 1) as nat)
                        == after_rule(before));
                    assert(after_rules(before, (nb_rules - i) as nat) == after_rule(before));
                    return Err(e);
                },
                Ok(rule) => {
                    rules.push(rule);
                    assert(rule_views(rules@) =~= earlier + seq![rule@]);
                    assert(earlier + (seq![rule@] + rules_at(
                        reader.scan(),
                        (nb_rules - i - 1) as nat,
                    )) =~= (earlier + seq![rule@]) + rules_at(
                        reader.scan(),
                        (nb_rules - i - 1) as nat,
                    ));
                },
            }
            i = i + 1;
        }
        assert(rule_views(rules@) + Seq::<RuleInfoView>::empty() =~= rule_views(rules@));
        Ok(Rules { nb_rules, rules })
    }
}

} // verus!
