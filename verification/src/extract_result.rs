//! A located match and the per-row extraction record.

use vstd::prelude::*;

use crate::text::join_with;

verus! {

/// A located, validated occurrence of one category's pattern in a text.
#[derive(Debug)]
pub struct MatchInfo {
    /// The matched text itself.
    pub value: String,
    /// The verdict of the category's validator on `value`.
    pub is_valid: bool,
    /// Byte offsets of `value` in the source text, start inclusive, end
    /// exclusive.
    pub position: (usize, usize),
}

impl Clone for MatchInfo {
    /// A field-for-field copy (the value text keeps its characters).
    fn clone(&self) -> (r: Self)
        ensures
            r.value@ == self.value@,
            r.is_valid == self.is_valid,
            r.position == self.position,
    {
        MatchInfo { value: self.value.clone(), is_valid: self.is_valid, position: self.position }
    }
}

impl MatchInfo {
    /// A match at a known span.
    pub fn new(value: String, is_valid: bool, start: usize, end: usize) -> (m: MatchInfo)
        ensures
            m.value == value,
            m.is_valid == is_valid,
            m.position == (start, end),
    {
        MatchInfo { value, is_valid, position: (start, end) }
    }

    /// A match without a position, as the name service reports them.
    pub fn simple(value: String, is_valid: bool) -> (m: MatchInfo)
        ensures
            m.value == value,
            m.is_valid == is_valid,
            m.position == (0usize, 0usize),
    {
        MatchInfo { value, is_valid, position: (0, 0) }
    }
}

/// The values of a list of matches.
pub open spec fn match_values(matches: Seq<MatchInfo>) -> Seq<Seq<char>> {
    matches.map_values(|m: MatchInfo| m.value@)
}

/// The localized verdict label of one match.
pub open spec fn validity_label(valid: bool) -> Seq<char> {
    if valid {
        "有效"@
    } else {
        "无效"@
    }
}

/// The verdict labels of a list of matches.
pub open spec fn match_validity_labels(matches: Seq<MatchInfo>) -> Seq<Seq<char>> {
    matches.map_values(|m: MatchInfo| validity_label(m.is_valid))
}

/// One result record per matching row: the matches of every category,
/// the row's own text and the neighbouring rows for review.
#[derive(Clone, Debug)]
pub struct ExtractResult {
    pub source_file: String,
    pub sheet_name: String,
    /// One-based row number in the sheet.
    pub row_number: u32,
    pub phone_numbers: Vec<MatchInfo>,
    pub id_cards: Vec<MatchInfo>,
    pub bank_cards: Vec<MatchInfo>,
    pub names: Vec<MatchInfo>,
    pub source_text: String,
    pub context_before: Vec<String>,
    pub context_after: Vec<String>,
}

/// The values of `matches` joined with `", "`.
fn format_matches(matches: &Vec<MatchInfo>) -> (r: String)
    ensures
        r@ == join_with(match_values(matches@), ", "@),
{
    let mut values: Vec<String> = Vec::new();
    let mut i: usize = 0;
    while i < matches.len()
        invariant
            0 <= i <= matches@.len(),
            values@.len() == i,
            values@.map_values(|s: String| s@) =~= match_values(matches@.take(i as int)),
        decreases matches@.len() - i,
    {
        let ghost values0 = values@;
        values.push(matches[i].value.clone());
        proof {
            assert(matches@.take(i + 1) =~= matches@.take(i as int).push(matches@[i as int]));
            assert forall|k: int| 0 <= k < values@.len() implies values@.map_values(
                |s: String| s@,
            )[k] == #[trigger] match_values(matches@.take(i + 1))[k] by {
                if k < i {
                    assert(values@[k] == values0[k]);
                    assert(values0.map_values(|s: String| s@)[k] == match_values(
                        matches@.take(i as int),
                    )[k]);
                }
            }
            assert(values@.map_values(|s: String| s@) =~= match_values(matches@.take(i + 1)));
        }
        i = i + 1;
    }
    proof {
        assert(matches@.take(matches@.len() as int) =~= matches@);
    }
    crate::text::join_strs(&values, ", ")
}

/// The verdict labels of `matches` joined with `", "`.
fn format_validity(matches: &Vec<MatchInfo>) -> (r: String)
    ensures
        r@ == join_with(match_validity_labels(matches@), ", "@),
{
    let mut labels: Vec<String> = Vec::new();
    let mut i: usize = 0;
    while i < matches.len()
        invariant
            0 <= i <= matches@.len(),
            labels@.len() == i,
            labels@.map_values(|s: String| s@) =~= match_validity_labels(matches@.take(i as int)),
        decreases matches@.len() - i,
    {
        let label = if matches[i].is_valid {
            "有效".to_owned()
        } else {
            "无效".to_owned()
        };
        let ghost labels0 = labels@;
        labels.push(label);
        proof {
            assert(matches@.take(i + 1) =~= matches@.take(i as int).push(matches@[i as int]));
            assert forall|k: int| 0 <= k < labels@.len() implies labels@.map_values(
                |s: String| s@,
            )[k] == #[trigger] match_validity_labels(matches@.take(i + 1))[k] by {
                if k < i {
                    assert(labels@[k] == labels0[k]);
                    assert(labels0.map_values(|s: String| s@)[k] == match_validity_labels(
                        matches@.take(i as int),
                    )[k]);
                }
            }
            assert(labels@.map_values(|s: String| s@) =~= match_validity_labels(
                matches@.take(i + 1),
            ));
        }
        i = i + 1;
    }
    proof {
        assert(matches@.take(matches@.len() as int) =~= matches@);
    }
    crate::text::join_strs(&labels, ", ")
}

impl ExtractResult {
    /// An empty record for one row.
    pub fn new(source_file: String, sheet_name: String, row_number: u32) -> (r: ExtractResult)
        ensures
            r.source_file == source_file,
            r.sheet_name == sheet_name,
            r.row_number == row_number,
            r.phone_numbers@ =~= Seq::<MatchInfo>::empty(),
            r.id_cards@ =~= Seq::<MatchInfo>::empty(),
            r.bank_cards@ =~= Seq::<MatchInfo>::empty(),
            r.names@ =~= Seq::<MatchInfo>::empty(),
            r.source_text@ =~= Seq::<char>::empty(),
            r.context_before@ =~= Seq::<String>::empty(),
            r.context_after@ =~= Seq::<String>::empty(),
    {
        ExtractResult {
            source_file,
            sheet_name,
            row_number,
            phone_numbers: Vec::new(),
            id_cards: Vec::new(),
            bank_cards: Vec::new(),
            names: Vec::new(),
            source_text: String::new(),
            context_before: Vec::new(),
            context_after: Vec::new(),
        }
    }

    /// The phone values joined with `", "`.
    pub fn phone_numbers_str(&self) -> (r: String)
        ensures
            r@ == join_with(match_values(self.phone_numbers@), ", "@),
    {
        format_matches(&self.phone_numbers)
    }

    /// The identity-number values joined with `", "`.
    pub fn id_cards_str(&self) -> (r: String)
        ensures
            r@ == join_with(match_values(self.id_cards@), ", "@),
    {
        format_matches(&self.id_cards)
    }

    /// The bank-card values joined with `", "`.
    pub fn bank_cards_str(&self) -> (r: String)
        ensures
            r@ == join_with(match_values(self.bank_cards@), ", "@),
    {
        format_matches(&self.bank_cards)
    }

    /// The name values joined with `", "`.
    pub fn names_str(&self) -> (r: String)
        ensures
            r@ == join_with(match_values(self.names@), ", "@),
    {
        format_matches(&self.names)
    }

    /// The phone verdict labels joined with `", "`.
    pub fn phone_validity_str(&self) -> (r: String)
        ensures
            r@ == join_with(match_validity_labels(self.phone_numbers@), ", "@),
    {
        format_validity(&self.phone_numbers)
    }

    /// The identity-number verdict labels joined with `", "`.
    pub fn id_card_validity_str(&self) -> (r: String)
        ensures
            r@ == join_with(match_validity_labels(self.id_cards@), ", "@),
    {
        format_validity(&self.id_cards)
    }

    /// The bank-card verdict labels joined with `", "`.
    pub fn bank_card_validity_str(&self) -> (r: String)
        ensures
            r@ == join_with(match_validity_labels(self.bank_cards@), ", "@),
    {
        format_validity(&self.bank_cards)
    }

    /// The name verdict labels joined with `", "`.
    pub fn names_validity_str(&self) -> (r: String)
        ensures
            r@ == join_with(match_validity_labels(self.names@), ", "@),
    {
        format_validity(&self.names)
    }

    /// The context rows before this row, one per line.
    pub fn context_before_str(&self) -> (r: String)
        ensures
            r@ == join_with(self.context_before@.map_values(|s: String| s@), "\n"@),
    {
        crate::text::join_strs(&self.context_before, "\n")
    }

    /// The context rows after this row, one per line.
    pub fn context_after_str(&self) -> (r: String)
        ensures
            r@ == join_with(self.context_after@.map_values(|s: String| s@), "\n"@),
    {
        crate::text::join_strs(&self.context_after, "\n")
    }
}

} // verus!
