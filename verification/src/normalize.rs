//! The row normalizer: one external table row, flattened into an account
//! identity plus dated amounts.
//!
//! Recognized keys are fixed and case-sensitive: `id`, `Type` (the
//! description), `Name`, `Currency`. Every other key is treated as a date
//! string whose value must be a JSON number fitting a 32-bit signed
//! integer; a number that does not fit fails the row with
//! `MalformedAmount`, while a non-numeric value only skips that field. A
//! recognized key whose value is not a string breaks the payload's shape.
//! The normalizer makes exactly one pass over the fields, in order, and a
//! repeated key overwrites the earlier value (last write wins).

use vstd::prelude::*;
use crate::json::JsonValue;
use crate::str_eq;

verus! {

/// The mathematical content of one normalized row.
pub struct NormalizedRowModel {
    pub id: Seq<char>,
    pub name: Seq<char>,
    pub currency: Seq<char>,
    pub description: Seq<char>,
    pub amounts: Seq<(Seq<char>, i32)>,
    pub skipped: Seq<Seq<char>>,
}

/// One normalized row: the account identity and, keyed by date string, the
/// integer amounts, plus the keys of the fields that were skipped with a
/// warning. Identity fields that the row did not carry stay empty.
pub struct NormalizedRow {
    pub id: String,
    pub name: String,
    pub currency: String,
    pub description: String,
    pub amounts: Vec<(String, i32)>,
    pub skipped: Vec<String>,
}

impl View for NormalizedRow {
    type V = NormalizedRowModel;

    open spec fn view(&self) -> NormalizedRowModel {
        NormalizedRowModel {
            id: self.id@,
            name: self.name@,
            currency: self.currency@,
            description: self.description@,
            amounts: Seq::new(self.amounts@.len(), |k: int| (self.amounts@[k].0@, self.amounts@[k].1)),
            skipped: Seq::new(self.skipped@.len(), |k: int| self.skipped@[k]@),
        }
    }
}

/// Why a row, or the whole payload, cannot be normalized.
#[derive(Clone, Copy, PartialEq, Eq, Structural, Debug)]
pub enum NormalizeError {
    /// The payload is not an array of objects, or a recognized key's value
    /// is not a string: the external contract changed, a hard stop.
    InvalidPayloadShape,
    /// A date-keyed value is a number that cannot be represented as a
    /// 32-bit signed integer.
    MalformedAmount,
}

/// The row a table row starts from: every field empty.
pub open spec fn spec_empty_row() -> NormalizedRowModel {
    NormalizedRowModel {
        id: Seq::empty(),
        name: Seq::empty(),
        currency: Seq::empty(),
        description: Seq::empty(),
        amounts: Seq::empty(),
        skipped: Seq::empty(),
    }
}

/// Stores an amount under a date key: overwrites the first entry with that
/// key, or appends a new entry when the key is fresh.
pub open spec fn spec_set_amount(
    amounts: Seq<(Seq<char>, i32)>,
    k: Seq<char>,
    n: i32,
) -> Seq<(Seq<char>, i32)>
    decreases amounts.len(),
{
    if amounts.len() == 0 {
        seq![(k, n)]
    } else if amounts[0].0 == k {
        seq![(k, n)] + amounts.drop_first()
    } else {
        seq![amounts[0]] + spec_set_amount(amounts.drop_first(), k, n)
    }
}

/// What one field does to the row being built.
pub open spec fn spec_apply_field(
    acc: NormalizedRowModel,
    k: Seq<char>,
    v: JsonValue,
) -> Result<NormalizedRowModel, NormalizeError> {
    if k == "id"@ || k == "Type"@ || k == "Name"@ || k == "Currency"@ {
        match v {
            JsonValue::Str(s) => Ok(
                if k == "id"@ {
                    NormalizedRowModel { id: s@, ..acc }
                } else if k == "Type"@ {
                    NormalizedRowModel { description: s@, ..acc }
                } else if k == "Name"@ {
                    NormalizedRowModel { name: s@, ..acc }
                } else {
                    NormalizedRowModel { currency: s@, ..acc }
                },
            ),
            _ => Err(NormalizeError::InvalidPayloadShape),
        }
    } else {
        match v {
            JsonValue::IntNumber(n) => if i32::MIN <= n <= i32::MAX {
                Ok(NormalizedRowModel { amounts: spec_set_amount(acc.amounts, k, n as i32), ..acc })
            } else {
                Err(NormalizeError::MalformedAmount)
            },
            JsonValue::OtherNumber => Err(NormalizeError::MalformedAmount),
            _ => Ok(NormalizedRowModel { skipped: acc.skipped.push(k), ..acc }),
        }
    }
}

/// What normalizing a whole row yields: the fields folded in order into the
/// empty row, stopping at the first fatal field.
pub open spec fn spec_normalize_fields(pairs: Seq<(String, JsonValue)>) -> Result<
    NormalizedRowModel,
    NormalizeError,
>
    decreases pairs.len(),
{
    if pairs.len() == 0 {
        Ok(spec_empty_row())
    } else {
        match spec_normalize_fields(pairs.drop_last()) {
            Err(e) => Err(e),
            Ok(acc) => spec_apply_field(acc, pairs.last().0@, pairs.last().1),
        }
    }
}

/// Once a prefix of the fields fails, the whole row fails the same way.
pub proof fn lemma_normalize_error_persists(pairs: Seq<(String, JsonValue)>, k: int)
    requires
        0 <= k <= pairs.len(),
        spec_normalize_fields(pairs.take(k)) is Err,
    ensures
        spec_normalize_fields(pairs) == spec_normalize_fields(pairs.take(k)),
    decreases pairs.len(),
{
    if pairs.len() > k {
        assert(pairs.drop_last().take(k) =~= pairs.take(k));
        lemma_normalize_error_persists(pairs.drop_last(), k);
    } else {
        assert(pairs.take(k) =~= pairs);
    }
}

/// Writing a fresh key appends it.
proof fn lemma_set_amount_fresh(amounts: Seq<(Seq<char>, i32)>, k: Seq<char>, n: i32)
    requires
        forall|j: int| 0 <= j < amounts.len() ==> amounts[j].0 != k,
    ensures
        spec_set_amount(amounts, k, n) == amounts.push((k, n)),
    decreases amounts.len(),
{
    if amounts.len() == 0 {
        assert(spec_set_amount(amounts, k, n) =~= amounts.push((k, n)));
    } else {
        lemma_set_amount_fresh(amounts.drop_first(), k, n);
        assert(seq![amounts[0]] + amounts.drop_first().push((k, n)) =~= amounts.push((k, n)));
    }
}

/// Writing a key that is present at position `j`, and nowhere earlier,
/// overwrites exactly that entry.
proof fn lemma_set_amount_update(amounts: Seq<(Seq<char>, i32)>, k: Seq<char>, n: i32, j: int)
    requires
        0 <= j < amounts.len(),
        amounts[j].0 == k,
        forall|l: int| 0 <= l < j ==> amounts[l].0 != k,
    ensures
        spec_set_amount(amounts, k, n) == amounts.update(j, (k, n)),
    decreases amounts.len(),
{
    if j == 0 {
        assert(seq![(k, n)] + amounts.drop_first() =~= amounts.update(0, (k, n)));
    } else {
        lemma_set_amount_update(amounts.drop_first(), k, n, j - 1);
        assert(seq![amounts[0]] + amounts.drop_first().update(j - 1, (k, n)) =~= amounts.update(
            j,
            (k, n),
        ));
    }
}

/// Stores `n` under key `k` in the amounts being built: overwrites the
/// first entry with that key, or appends.
fn set_amount(amounts: &mut Vec<(String, i32)>, k: String, n: i32)
    ensures
        Seq::new(final(amounts)@.len(), |l: int| (final(amounts)@[l].0@, final(amounts)@[l].1))
            == spec_set_amount(
            Seq::new(old(amounts)@.len(), |l: int| (old(amounts)@[l].0@, old(amounts)@[l].1)),
            k@,
            n,
        ),
{
    let ghost entries = Seq::new(old(amounts)@.len(), |l: int| (old(amounts)@[l].0@, old(amounts)@[l].1));
    let ghost kv = k@;
    let mut j: usize = 0;
    while j < amounts.len()
        invariant
            0 <= j <= amounts@.len(),
            amounts@ == old(amounts)@,
            kv == k@,
            entries == Seq::new(amounts@.len(), |l: int| (amounts@[l].0@, amounts@[l].1)),
            forall|l: int| 0 <= l < j ==> amounts@[l].0@ != kv,
        decreases amounts@.len() - j,
    {
        let hit = str_eq(amounts[j].0.as_str(), k.as_str());
        assert(hit == (amounts@[j as int].0@ == kv));
        if hit {
            proof {
                assert(entries[j as int] == (amounts@[j as int].0@, amounts@[j as int].1));
                assert(entries[j as int].0 == kv);
                lemma_set_amount_update(entries, kv, n, j as int);
            }
            amounts[j] = (k, n);
            proof {
                assert(Seq::new(amounts@.len(), |l: int| (amounts@[l].0@, amounts@[l].1))
                    =~= entries.update(j as int, (kv, n)));
            }
            return ;
        }
        j += 1;
    }
    proof {
        assert(forall|l: int| 0 <= l < entries.len() ==> #[trigger] entries[l].0 != kv);
        lemma_set_amount_fresh(entries, kv, n);
    }
    amounts.push((k, n));
    proof {
        assert(Seq::new(amounts@.len(), |l: int| (amounts@[l].0@, amounts@[l].1))
            =~= entries.push((kv, n)));
    }
}

/// Normalizes one table row, given as the fields of its JSON object in
/// document order. Yields the account identity and the date-keyed amounts,
/// or the first fatal error; non-numeric date fields are only skipped, and
/// their keys are reported for the caller to log.
pub fn normalize_row(pairs: &Vec<(String, JsonValue)>) -> (r: Result<
    NormalizedRow,
    NormalizeError,
>)
    ensures
        match (r, spec_normalize_fields(pairs@)) {
            (Ok(row), Ok(m)) => row@ == m,
            (Err(e1), Err(e2)) => e1 == e2,
            _ => false,
        },
{
    let mut row = NormalizedRow {
        id: String::new(),
        name: String::new(),
        currency: String::new(),
        description: String::new(),
        amounts: Vec::new(),
        skipped: Vec::new(),
    };
    proof {
        assert(row@.amounts =~= spec_empty_row().amounts);
        assert(row@.skipped =~= spec_empty_row().skipped);
        assert(row@ == spec_empty_row());
    }
    let mut i: usize = 0;
    while i < pairs.len()
        invariant
            0 <= i <= pairs@.len(),
            spec_normalize_fields(pairs@.take(i as int)) == Ok::<NormalizedRowModel,
                NormalizeError,
            >(row@),
        decreases pairs@.len() - i,
    {
        let ghost prev = row@;
        let key: String = pairs[i].0.clone();
        let ghost kv = key@;
        let keyref = key.as_str();
        if str_eq(keyref, "id") || str_eq(keyref, "Type") || str_eq(keyref, "Name") || str_eq(
            keyref,
            "Currency",
        ) {
            match &pairs[i].1 {
                JsonValue::Str(s) => {
                    if str_eq(keyref, "id") {
                        row.id = s.clone();
                    } else if str_eq(keyref, "Type") {
                        row.description = s.clone();
                    } else if str_eq(keyref, "Name") {
                        row.name = s.clone();
                    } else {
                        row.currency = s.clone();
                    }
                    proof {
                        assert(row@.amounts =~= prev.amounts);
                        assert(row@.skipped =~= prev.skipped);
                        assert(Ok::<NormalizedRowModel, NormalizeError>(row@)
                            == spec_apply_field(prev, key@, pairs@[i as int].1));
                    }
                },
                _ => {
                    proof {
                        assert(pairs@.take(i + 1).drop_last() =~= pairs@.take(i as int));
                        lemma_normalize_error_persists(pairs@, i + 1);
                    }
                    return Err(NormalizeError::InvalidPayloadShape);
                },
            }
        } else {
            match &pairs[i].1 {
                JsonValue::IntNumber(n) => {
                    let n = *n;
                    if i32::MIN as i64 <= n && n <= i32::MAX as i64 {
                        set_amount(&mut row.amounts, key, n as i32);
                        proof {
                            assert(row@.skipped =~= prev.skipped);
                            assert(row@.amounts =~= spec_set_amount(prev.amounts, kv, n as i32));
                            assert(Ok::<NormalizedRowModel, NormalizeError>(row@)
                                == spec_apply_field(prev, kv, pairs@[i as int].1));
                        }
                    } else {
                        proof {
                            assert(pairs@.take(i + 1).drop_last() =~= pairs@.take(i as int));
                            lemma_normalize_error_persists(pairs@, i + 1);
                        }
                        return Err(NormalizeError::MalformedAmount);
                    }
                },
                JsonValue::OtherNumber => {
                    proof {
                        assert(pairs@.take(i + 1).drop_last() =~= pairs@.take(i as int));
                        lemma_normalize_error_persists(pairs@, i + 1);
                    }
                    return Err(NormalizeError::MalformedAmount);
                },
                _ => {
                    row.skipped.push(key);
                    proof {
                        assert(row@.amounts =~= prev.amounts);
                        assert(row@.skipped =~= prev.skipped.push(kv));
                        assert(Ok::<NormalizedRowModel, NormalizeError>(row@)
                            == spec_apply_field(prev, kv, pairs@[i as int].1));
                    }
                },
            }
        }
        proof {
            assert(pairs@.take(i + 1).drop_last() =~= pairs@.take(i as int));
            assert(pairs@.take(i + 1).last() == pairs@[i as int]);
        }
        i += 1;
    }
    proof {
        assert(pairs@.take(pairs@.len() as int) =~= pairs@);
    }
    Ok(row)
}


} // verus!
