//! The extraction coordinator: runs scanner and validator per enabled
//! category over one text cell and applies the cross-category rule.
//!
//! The rule: a bank-card candidate whose span overlaps a *valid*
//! identity-number match is discarded before validation — a valid
//! eighteen-digit identity number is a common false positive for the
//! sixteen-to-nineteen-digit card shape. An identity-shaped match that
//! fails its own check suppresses nothing: ambiguous text surfaces both
//! readings for review.

use vstd::prelude::*;
use vstd::string::StringSliceAdditionalSpecFns;

use crate::config::Config;
use crate::extract_result::MatchInfo;
use crate::patterns::{bank_matches, id_matches, phone_matches, reported_matches};
use crate::text::chars_of_bytes;
use crate::validator::{spec_valid_bank_card, spec_valid_id_card, spec_valid_phone, Validator};

verus! {

/// `m` reports the span `sp` of text `b` with verdict `valid`.
pub open spec fn match_info_for_span(m: MatchInfo, b: Seq<u8>, sp: (int, int), valid: bool) -> bool {
    &&& m.position.0 as int == sp.0
    &&& m.position.1 as int == sp.1
    &&& m.value@ == chars_of_bytes(b.subrange(sp.0, sp.1))
    &&& m.is_valid == valid
}

/// `m` is the phone match for span `sp` of `b`, stamped by the validator.
pub open spec fn phone_result_at(m: MatchInfo, b: Seq<u8>, sp: (int, int)) -> bool {
    match_info_for_span(m, b, sp, spec_valid_phone(b.subrange(sp.0, sp.1)))
}

/// `m` is the identity-number match for span `sp` of `b`.
pub open spec fn id_result_at(m: MatchInfo, b: Seq<u8>, sp: (int, int)) -> bool {
    match_info_for_span(m, b, sp, spec_valid_id_card(b.subrange(sp.0, sp.1)))
}

/// `m` is the bank-card match for span `sp` of `b`.
pub open spec fn bank_result_at(m: MatchInfo, b: Seq<u8>, sp: (int, int)) -> bool {
    match_info_for_span(m, b, sp, spec_valid_bank_card(b.subrange(sp.0, sp.1)))
}

/// `ms` are exactly the phone matches of `b`, in order, each stamped.
pub open spec fn phone_results_ok(ms: Seq<MatchInfo>, b: Seq<u8>) -> bool {
    &&& ms.len() == phone_matches(b).len()
    &&& forall|k: int| 0 <= k < ms.len() ==> phone_result_at(#[trigger] ms[k], b, phone_matches(b)[k])
}

/// `ms` are exactly the identity-number matches of `b`, in order.
pub open spec fn id_results_ok(ms: Seq<MatchInfo>, b: Seq<u8>) -> bool {
    &&& ms.len() == id_matches(b).len()
    &&& forall|k: int| 0 <= k < ms.len() ==> id_result_at(#[trigger] ms[k], b, id_matches(b)[k])
}

/// Two half-open intervals intersect.
pub open spec fn spans_overlap(a: (int, int), c: (int, int)) -> bool {
    a.0 < c.1 && a.1 > c.0
}

/// `sp` intersects some interval of `excl`.
pub open spec fn overlaps_any(sp: (int, int), excl: Seq<(int, int)>) -> bool {
    exists|j: int| 0 <= j < excl.len() && spans_overlap(sp, #[trigger] excl[j])
}

/// The spans of the identity-number matches of `b` that the validator
/// accepts.
pub open spec fn valid_id_spans(b: Seq<u8>) -> Seq<(int, int)> {
    id_matches(b).filter(|sp: (int, int)| spec_valid_id_card(b.subrange(sp.0, sp.1)))
}

/// The bank-card spans of `b` that survive the exclusion list `excl`.
pub open spec fn kept_bank_spans(b: Seq<u8>, excl: Seq<(int, int)>) -> Seq<(int, int)> {
    bank_matches(b).filter(|sp: (int, int)| !overlaps_any(sp, excl))
}

/// `ms` are exactly the bank-card matches of `b` that survive `excl`, in
/// order, each stamped.
pub open spec fn bank_results_ok(ms: Seq<MatchInfo>, b: Seq<u8>, excl: Seq<(int, int)>) -> bool {
    &&& ms.len() == kept_bank_spans(b, excl).len()
    &&& forall|k: int|
        0 <= k < ms.len() ==> bank_result_at(#[trigger] ms[k], b, kept_bank_spans(b, excl)[k])
}

/// The exclusion list a configuration derives from a text: the valid
/// identity-number spans when that category runs, nothing otherwise.
pub open spec fn exclusion_spans(b: Seq<u8>, enable_id_card: bool) -> Seq<(int, int)> {
    if enable_id_card {
        valid_id_spans(b)
    } else {
        Seq::empty()
    }
}

/// Positions as mathematical intervals.
pub open spec fn spans_int(v: Seq<(usize, usize)>) -> Seq<(int, int)> {
    v.map_values(|p: (usize, usize)| (p.0 as int, p.1 as int))
}

/// Whether `pos` intersects any interval of `list`.
fn overlaps_positions(pos: (usize, usize), list: &Vec<(usize, usize)>) -> (r: bool)
    ensures
        r == overlaps_any((pos.0 as int, pos.1 as int), spans_int(list@)),
{
    let mut j: usize = 0;
    while j < list.len()
        invariant
            0 <= j <= list@.len(),
            forall|i: int|
                0 <= i < j ==> !spans_overlap(
                    (pos.0 as int, pos.1 as int),
                    #[trigger] spans_int(list@)[i],
                ),
        decreases list@.len() - j,
    {
        let s = list[j].0;
        let e = list[j].1;
        if pos.0 < e && pos.1 > s {
            proof {
                assert(spans_overlap((pos.0 as int, pos.1 as int), spans_int(list@)[j as int]));
            }
            return true;
        }
        j = j + 1;
    }
    false
}

/// Composes the scanners and validators over one text cell, per the
/// configuration it was built with.
pub struct InfoExtractor {
    config: Config,
}

impl InfoExtractor {
    /// The configuration this extractor applies.
    pub closed spec fn config(&self) -> Config {
        self.config
    }

    /// An extractor for `config`.
    pub fn new(config: Config) -> (e: InfoExtractor)
        ensures
            e.config() == config,
    {
        InfoExtractor { config }
    }

    /// The phone matches of `text`, stamped by the validator.
    fn extract_phones(&self, text: &str) -> (r: Vec<MatchInfo>)
        ensures
            phone_results_ok(r@, text.spec_bytes()),
    {
        let raw = crate::patterns::extract_phones(text);
        let ghost b = text.spec_bytes();
        let ghost spans = phone_matches(b);
        let mut out: Vec<MatchInfo> = Vec::new();
        let mut k: usize = 0;
        while k < raw.len()
            invariant
                0 <= k <= raw@.len(),
                b == text.spec_bytes(),
                spans == phone_matches(b),
                reported_matches(raw@, b, spans),
                out@.len() == k,
                forall|j: int| 0 <= j < k ==> phone_result_at(#[trigger] out@[j], b, spans[j]),
            decreases raw@.len() - k,
        {
            let item = &raw[k];
            let vs = item.0.as_str();
            let valid = Validator::validate_phone(vs);
            proof {
                crate::text::lemma_ascii_str_bytes(
                    vs,
                    b.subrange(spans[k as int].0, spans[k as int].1),
                );
            }
            out.push(MatchInfo::new(item.0.clone(), valid, item.1, item.2));
            k = k + 1;
        }
        out
    }

    /// The identity-number matches of `text`, stamped by the validator.
    fn extract_id_cards(&self, text: &str) -> (r: Vec<MatchInfo>)
        ensures
            id_results_ok(r@, text.spec_bytes()),
    {
        let raw = crate::patterns::extract_id_cards(text);
        let ghost b = text.spec_bytes();
        let ghost spans = id_matches(b);
        let mut out: Vec<MatchInfo> = Vec::new();
        let mut k: usize = 0;
        while k < raw.len()
            invariant
                0 <= k <= raw@.len(),
                b == text.spec_bytes(),
                spans == id_matches(b),
                reported_matches(raw@, b, spans),
                out@.len() == k,
                forall|j: int| 0 <= j < k ==> id_result_at(#[trigger] out@[j], b, spans[j]),
            decreases raw@.len() - k,
        {
            let item = &raw[k];
            let vs = item.0.as_str();
            let valid = Validator::validate_id_card(vs);
            proof {
                crate::text::lemma_ascii_str_bytes(
                    vs,
                    b.subrange(spans[k as int].0, spans[k as int].1),
                );
            }
            out.push(MatchInfo::new(item.0.clone(), valid, item.1, item.2));
            k = k + 1;
        }
        out
    }

    /// The bank-card matches of `text` that do not touch an excluded span,
    /// stamped by the validator.
    fn extract_bank_cards_filtered(&self, text: &str, exclude_positions: &Vec<(usize, usize)>) -> (r:
        Vec<MatchInfo>)
        ensures
            bank_results_ok(r@, text.spec_bytes(), spans_int(exclude_positions@)),
    {
        let raw = crate::patterns::extract_bank_cards(text);
        let ghost b = text.spec_bytes();
        let ghost spans = bank_matches(b);
        let ghost excl = spans_int(exclude_positions@);
        let mut out: Vec<MatchInfo> = Vec::new();
        let mut k: usize = 0;
        proof {
            assert(spans.take(0).filter(|sp: (int, int)| !overlaps_any(sp, excl))
                =~= Seq::<(int, int)>::empty());
        }
        while k < raw.len()
            invariant
                0 <= k <= raw@.len(),
                b == text.spec_bytes(),
                spans == bank_matches(b),
                excl == spans_int(exclude_positions@),
                reported_matches(raw@, b, spans),
                out@.len() == spans.take(k as int).filter(
                    |sp: (int, int)| !overlaps_any(sp, excl),
                ).len(),
                forall|j: int|
                    0 <= j < out@.len() ==> bank_result_at(
                        #[trigger] out@[j],
                        b,
                        spans.take(k as int).filter(|sp: (int, int)| !overlaps_any(sp, excl))[j],
                    ),
            decreases raw@.len() - k,
        {
            proof {
                crate::text::lemma_filter_take_step(
                    spans,
                    |sp: (int, int)| !overlaps_any(sp, excl),
                    k as int,
                );
            }
            let item = &raw[k];
            if !overlaps_positions((item.1, item.2), exclude_positions) {
                let vs = item.0.as_str();
                let valid = Validator::validate_bank_card(vs);
                proof {
                    crate::text::lemma_ascii_str_bytes(
                        vs,
                        b.subrange(spans[k as int].0, spans[k as int].1),
                    );
                }
                out.push(MatchInfo::new(item.0.clone(), valid, item.1, item.2));
            }
            k = k + 1;
        }
        proof {
            assert(spans.take(raw@.len() as int) =~= spans);
        }
        out
    }

    /// Extract every enabled category from one text cell: phones, identity
    /// numbers, bank cards and names, in that order. A disabled category
    /// yields an empty list. Bank-card candidates overlapping a valid
    /// identity-number match are discarded before validation, so no valid
    /// identity number is also reported as a card number. Name matches come
    /// from the external name service, which the surrounding application
    /// consults; here the list is empty.
    pub fn extract(&self, text: &str) -> (r: (
        Vec<MatchInfo>,
        Vec<MatchInfo>,
        Vec<MatchInfo>,
        Vec<MatchInfo>,
    ))
        ensures
            ({
                let b = text.spec_bytes();
                let excl = exclusion_spans(b, self.config().enable_id_card);
                &&& self.config().enable_phone ==> phone_results_ok(r.0@, b)
                &&& !self.config().enable_phone ==> r.0@.len() == 0
                &&& self.config().enable_id_card ==> id_results_ok(r.1@, b)
                &&& !self.config().enable_id_card ==> r.1@.len() == 0
                &&& self.config().enable_bank_card ==> bank_results_ok(r.2@, b, excl)
                &&& !self.config().enable_bank_card ==> r.2@.len() == 0
                &&& r.3@.len() == 0
            }),
            forall|k: int, j: int|
                0 <= k < r.2@.len() && 0 <= j < r.1@.len() && (#[trigger] r.1@[j]).is_valid
                    ==> !spans_overlap(
                    ((#[trigger] r.2@[k]).position.0 as int, r.2@[k].position.1 as int),
                    (r.1@[j].position.0 as int, r.1@[j].position.1 as int),
                ),
    {
        let phones = if self.config.enable_phone {
            self.extract_phones(text)
        } else {
            Vec::new()
        };
        let id_cards = if self.config.enable_id_card {
            self.extract_id_cards(text)
        } else {
            Vec::new()
        };
        let ghost b = text.spec_bytes();
        let mut valid_id_card_positions: Vec<(usize, usize)> = Vec::new();
        let mut j: usize = 0;
        proof {
            assert(id_matches(b).take(0).filter(
                |sp: (int, int)| spec_valid_id_card(b.subrange(sp.0, sp.1)),
            ) =~= Seq::<(int, int)>::empty());
        }
        while j < id_cards.len()
            invariant
                0 <= j <= id_cards@.len(),
                b == text.spec_bytes(),
                self.config().enable_id_card ==> id_results_ok(id_cards@, b),
                !self.config().enable_id_card ==> id_cards@.len() == 0,
                spans_int(valid_id_card_positions@) == id_matches(b).take(
                    if self.config().enable_id_card {
                        j as int
                    } else {
                        0
                    },
                ).filter(|sp: (int, int)| spec_valid_id_card(b.subrange(sp.0, sp.1))),
            decreases id_cards@.len() - j,
        {
            proof {
                crate::text::lemma_filter_take_step(
                    id_matches(b),
                    |sp: (int, int)| spec_valid_id_card(b.subrange(sp.0, sp.1)),
                    j as int,
                );
            }
            let ghost positions0 = valid_id_card_positions@;
            let m = &id_cards[j];
            if m.is_valid {
                valid_id_card_positions.push((m.position.0, m.position.1));
                proof {
                    assert(spans_int(valid_id_card_positions@) =~= spans_int(positions0).push(
                        (m.position.0 as int, m.position.1 as int),
                    ));
                }
            }
            j = j + 1;
        }
        proof {
            if self.config().enable_id_card {
                assert(id_matches(b).take(id_cards@.len() as int) =~= id_matches(b));
            }
        }
        let bank_cards = if self.config.enable_bank_card {
            self.extract_bank_cards_filtered(text, &valid_id_card_positions)
        } else {
            Vec::new()
        };
        proof {
            let excl_actual = spans_int(valid_id_card_positions@);
            if self.config().enable_id_card {
                assert(excl_actual == exclusion_spans(b, true));
            } else {
                assert(excl_actual =~= Seq::<(int, int)>::empty());
            }
            if self.config().enable_bank_card && self.config().enable_id_card {
                assert forall|jj: int|
                    0 <= jj < id_cards@.len() && (#[trigger] id_cards@[jj]).is_valid
                        implies excl_actual.contains(
                    (id_cards@[jj].position.0 as int, id_cards@[jj].position.1 as int),
                ) by {
                    assert(id_result_at(id_cards@[jj], b, id_matches(b)[jj]));
                    id_matches(b).lemma_filter_contains(
                        |sp: (int, int)| spec_valid_id_card(b.subrange(sp.0, sp.1)),
                        jj,
                    );
                    assert(valid_id_spans(b).contains(id_matches(b)[jj]));
                }
                lemma_no_valid_id_overlap(b, id_cards@, bank_cards@, excl_actual);
            }
        }
        (phones, id_cards, bank_cards, Vec::new())
    }
}

/// Matches as the name service reports them: one per name, in order, the
/// verdict taken from the service's confidence (already compared against
/// the acceptance threshold by the caller), and no position in the text.
pub fn name_matches_from_response(names: Vec<String>, confident: bool) -> (r: Vec<MatchInfo>)
    ensures
        r@.len() == names@.len(),
        forall|k: int|
            0 <= k < r@.len() ==> {
                &&& (#[trigger] r@[k]).value@ == names@[k]@
                &&& r@[k].is_valid == confident
                &&& r@[k].position == (0usize, 0usize)
            },
{
    let mut out: Vec<MatchInfo> = Vec::new();
    let mut k: usize = 0;
    while k < names.len()
        invariant
            0 <= k <= names@.len(),
            out@.len() == k,
            forall|j: int|
                0 <= j < k ==> {
                    &&& (#[trigger] out@[j]).value@ == names@[j]@
                    &&& out@[j].is_valid == confident
                    &&& out@[j].position == (0usize, 0usize)
                },
        decreases names@.len() - k,
    {
        out.push(MatchInfo::simple(names[k].clone(), confident));
        k = k + 1;
    }
    out
}

/// Two match lists that agree in every reported field.
pub open spec fn match_seqs_alike(a: Seq<MatchInfo>, c: Seq<MatchInfo>) -> bool {
    &&& a.len() == c.len()
    &&& forall|k: int|
        0 <= k < a.len() ==> {
            &&& (#[trigger] a[k]).value@ == c[k].value@
            &&& a[k].is_valid == c[k].is_valid
            &&& a[k].position == c[k].position
        }
}

/// Law: extraction is deterministic. Any two outputs that `extract`'s
/// contract admits for the same configuration and the same text agree
/// match for match, in every category — no hidden state reaches the
/// result.
pub proof fn lemma_extraction_deterministic(
    cfg: Config,
    b: Seq<u8>,
    p1: Seq<MatchInfo>,
    i1: Seq<MatchInfo>,
    k1: Seq<MatchInfo>,
    n1: Seq<MatchInfo>,
    p2: Seq<MatchInfo>,
    i2: Seq<MatchInfo>,
    k2: Seq<MatchInfo>,
    n2: Seq<MatchInfo>,
)
    requires
        cfg.enable_phone ==> phone_results_ok(p1, b) && phone_results_ok(p2, b),
        !cfg.enable_phone ==> p1.len() == 0 && p2.len() == 0,
        cfg.enable_id_card ==> id_results_ok(i1, b) && id_results_ok(i2, b),
        !cfg.enable_id_card ==> i1.len() == 0 && i2.len() == 0,
        cfg.enable_bank_card ==> bank_results_ok(k1, b, exclusion_spans(b, cfg.enable_id_card))
            && bank_results_ok(k2, b, exclusion_spans(b, cfg.enable_id_card)),
        !cfg.enable_bank_card ==> k1.len() == 0 && k2.len() == 0,
        n1.len() == 0,
        n2.len() == 0,
    ensures
        match_seqs_alike(p1, p2),
        match_seqs_alike(i1, i2),
        match_seqs_alike(k1, k2),
        match_seqs_alike(n1, n2),
{
    if cfg.enable_phone {
        assert forall|k: int| 0 <= k < p1.len() implies {
            &&& (#[trigger] p1[k]).value@ == p2[k].value@
            &&& p1[k].is_valid == p2[k].is_valid
            &&& p1[k].position == p2[k].position
        } by {
            assert(phone_result_at(p1[k], b, phone_matches(b)[k]));
            assert(phone_result_at(p2[k], b, phone_matches(b)[k]));
        }
    }
    if cfg.enable_id_card {
        assert forall|k: int| 0 <= k < i1.len() implies {
            &&& (#[trigger] i1[k]).value@ == i2[k].value@
            &&& i1[k].is_valid == i2[k].is_valid
            &&& i1[k].position == i2[k].position
        } by {
            assert(id_result_at(i1[k], b, id_matches(b)[k]));
            assert(id_result_at(i2[k], b, id_matches(b)[k]));
        }
    }
    if cfg.enable_bank_card {
        let excl = exclusion_spans(b, cfg.enable_id_card);
        assert forall|k: int| 0 <= k < k1.len() implies {
            &&& (#[trigger] k1[k]).value@ == k2[k].value@
            &&& k1[k].is_valid == k2[k].is_valid
            &&& k1[k].position == k2[k].position
        } by {
            assert(bank_result_at(k1[k], b, kept_bank_spans(b, excl)[k]));
            assert(bank_result_at(k2[k], b, kept_bank_spans(b, excl)[k]));
        }
    }
}

/// Every surviving bank-card span avoids every excluded span.
proof fn lemma_kept_spans_avoid_exclusions(b: Seq<u8>, excl: Seq<(int, int)>)
    ensures
        forall|k: int|
            0 <= k < kept_bank_spans(b, excl).len() ==> !overlaps_any(
                #[trigger] kept_bank_spans(b, excl)[k],
                excl,
            ),
{
    broadcast use vstd::seq_lib::group_filter_ensures;

    assert forall|k: int| 0 <= k < kept_bank_spans(b, excl).len() implies !overlaps_any(
        #[trigger] kept_bank_spans(b, excl)[k],
        excl,
    ) by {
        assert(kept_bank_spans(b, excl) == bank_matches(b).filter(
            |sp: (int, int)| !overlaps_any(sp, excl),
        ));
    }
}

/// Law: when both categories run, no reported bank-card match overlaps a
/// valid identity-number match of the same text.
proof fn lemma_no_valid_id_overlap(
    b: Seq<u8>,
    ids: Seq<MatchInfo>,
    banks: Seq<MatchInfo>,
    excl: Seq<(int, int)>,
)
    requires
        id_results_ok(ids, b),
        bank_results_ok(banks, b, excl),
        forall|j: int|
            0 <= j < ids.len() && (#[trigger] ids[j]).is_valid ==> excl.contains(
                (ids[j].position.0 as int, ids[j].position.1 as int),
            ),
    ensures
        forall|k: int, j: int|
            0 <= k < banks.len() && 0 <= j < ids.len() && (#[trigger] ids[j]).is_valid
                ==> !spans_overlap(
                ((#[trigger] banks[k]).position.0 as int, banks[k].position.1 as int),
                (ids[j].position.0 as int, ids[j].position.1 as int),
            ),
{
    lemma_kept_spans_avoid_exclusions(b, excl);
    assert forall|k: int, j: int|
        0 <= k < banks.len() && 0 <= j < ids.len() && (#[trigger] ids[j]).is_valid
            implies !spans_overlap(
        ((#[trigger] banks[k]).position.0 as int, banks[k].position.1 as int),
        (ids[j].position.0 as int, ids[j].position.1 as int),
    ) by {
        let sp = kept_bank_spans(b, excl)[k];
        assert(bank_result_at(banks[k], b, sp));
        let idsp = (ids[j].position.0 as int, ids[j].position.1 as int);
        let w = choose|w: int| 0 <= w < excl.len() && excl[w] == idsp;
        assert(!overlaps_any(sp, excl));
        assert(!spans_overlap(sp, excl[w]));
    }
}

} // verus!
