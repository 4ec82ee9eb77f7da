//! The reporting engine: latest balances with their sum, the historical
//! trend with deltas, and net worth converted across currencies.

use vstd::prelude::*;
use vstd::arithmetic::mul::lemma_mul_inequality;
use crate::account::Account;
use crate::currency::Currency;
use crate::date::Date;
use crate::snapshot::{HistoryPoint, Snapshot, spec_latest_table};
use crate::store::{AccountModel, ReportError, SnapshotModel, Store, spec_fits_i64};

verus! {

/// The magnitude of an integer.
pub open spec fn spec_abs(a: int) -> int {
    if a >= 0 {
        a
    } else {
        -a
    }
}

/// Division truncated toward zero, as machine division performs it.
pub open spec fn spec_div_trunc(a: int, b: int) -> int
    recommends
        b != 0,
{
    let q = spec_abs(a) / spec_abs(b);
    if (a < 0) != (b < 0) {
        -q
    } else {
        q
    }
}

/// The sum of the snapshot amounts of a latest table.
pub open spec fn spec_table_total(t: Seq<(SnapshotModel, AccountModel)>) -> int
    decreases t.len(),
{
    if t.len() == 0 {
        0
    } else {
        spec_table_total(t.drop_last()) + t.last().0.amount
    }
}

/// The sum of the latest balances of every account of a currency.
pub open spec fn spec_latest_total(m: crate::store::StoreModel, cur: Seq<char>) -> int {
    spec_table_total(spec_latest_table(m, cur))
}

/// A latest table's sum is bounded by its length times the largest single
/// amount.
pub proof fn lemma_table_total_bound(t: Seq<(SnapshotModel, AccountModel)>)
    ensures
        -(t.len() as int) * 0x8000_0000 <= spec_table_total(t) <= (t.len() as int) * 0x8000_0000,
    decreases t.len(),
{
    if t.len() > 0 {
        lemma_table_total_bound(t.drop_last());
        assert((t.len() as int) * 0x8000_0000 == (t.len() as int - 1) * 0x8000_0000 + 0x8000_0000)
            by (nonlinear_arith);
    }
}

/// Sums the snapshot amounts of a latest table, exactly.
fn table_total(table: &Vec<(Snapshot, Account)>) -> (t: i128)
    ensures
        t as int == spec_table_total(
            Seq::new(table@.len(), |k: int| (table@[k].0@, table@[k].1@)),
        ),
{
    let ghost tview = Seq::new(table@.len(), |k: int| (table@[k].0@, table@[k].1@));
    let mut acc: i128 = 0;
    let mut k: usize = 0;
    while k < table.len()
        invariant
            tview == Seq::new(table@.len(), |k: int| (table@[k].0@, table@[k].1@)),
            0 <= k <= table@.len(),
            acc as int == spec_table_total(tview.take(k as int)),
            -(k as int) * 0x8000_0000 <= acc as int <= (k as int) * 0x8000_0000,
        decreases table@.len() - k,
    {
        proof {
            assert(tview.take(k + 1 as int).drop_last() =~= tview.take(k as int));
            assert(tview.take(k + 1 as int).last() == tview[k as int]);
            let c: int = 0x8000_0000;
            assert((k as int) * c + c == (k as int + 1) * c) by (nonlinear_arith);
            lemma_mul_inequality(k as int + 1, usize::MAX as int, c);
            lemma_mul_inequality(usize::MAX as int, u64::MAX as int, c);
        }
        acc = acc + table[k].0.amount as i128;
        k += 1;
    }
    proof {
        assert(tview.take(table@.len() as int) =~= tview);
    }
    acc
}

/// The latest balances of one currency and their sum.
pub struct LatestSumReport {
    /// Each account of the currency with its latest snapshot, in account
    /// storage order.
    pub lines: Vec<(Snapshot, Account)>,
    /// The sum of the listed amounts.
    pub total: i64,
}

/// The latest balance of every account of the given currency, and their
/// exact sum; a sum that does not fit the 64-bit signed range is rejected
/// as `Overflow`, never wrapped.
pub fn latest_sum(store: &Store, currency: &Currency) -> (r: Result<LatestSumReport, ReportError>)
    ensures
        ({
            let table = spec_latest_table(store@, currency.spec_code());
            let total = spec_latest_total(store@, currency.spec_code());
            match r {
                Ok(rep) => spec_fits_i64(total) && rep.total as int == total && Seq::new(
                    rep.lines@.len(),
                    |k: int| (rep.lines@[k].0@, rep.lines@[k].1@),
                ) == table,
                Err(e) => e == ReportError::Overflow && !spec_fits_i64(total),
            }
        }),
{
    let table = Snapshot::latest_per_account(store, currency.as_str());
    let total = table_total(&table);
    if total < i64::MIN as i128 || total > i64::MAX as i128 {
        Err(ReportError::Overflow)
    } else {
        Ok(LatestSumReport { lines: table, total: total as i64 })
    }
}

/// One line of the history report. The first line carries no comparison;
/// every later line carries the difference to the previous total, whether
/// the trend is improving (the difference is not negative), and — except
/// when the previous total is zero, which leaves the percentage undefined —
/// the current total as a truncated percentage of the previous one.
pub struct HistoryLine {
    pub date: Date,
    pub total: i64,
    pub diff: Option<i128>,
    pub diff_percent: Option<i128>,
    pub improving: Option<bool>,
}

/// Derives the delta report from a balance history: one line per point,
/// with difference, truncated percentage, and the improving flag computed
/// against the previous point.
pub fn history_report(points: &Vec<HistoryPoint>) -> (r: Vec<HistoryLine>)
    ensures
        r@.len() == points@.len(),
        forall|k: int|
            0 <= k < r@.len() ==> {
                let line = #[trigger] r@[k];
                line.date == points@[k].date && line.total == points@[k].total && (k == 0
                    ==> line.diff is None && line.diff_percent is None && line.improving is None)
                    && (k > 0 ==> {
                    let diff = points@[k].total - points@[k - 1].total;
                    line.diff == Some(diff as i128) && line.improving == Some(diff >= 0) && (
                    points@[k - 1].total == 0 ==> line.diff_percent is None) && (points@[k
                        - 1].total != 0 ==> line.diff_percent == Some(
                        spec_div_trunc(points@[k].total * 100, points@[k - 1].total as int) as i128,
                    ))
                })
            },
{
    let mut out: Vec<HistoryLine> = Vec::new();
    let mut k: usize = 0;
    while k < points.len()
        invariant
            0 <= k <= points@.len(),
            out@.len() == k,
            forall|q: int|
                0 <= q < k ==> {
                    let line = #[trigger] out@[q];
                    line.date == points@[q].date && line.total == points@[q].total && (q == 0
                        ==> line.diff is None && line.diff_percent is None && line.improving
                        is None) && (q > 0 ==> {
                        let diff = points@[q].total - points@[q - 1].total;
                        line.diff == Some(diff as i128) && line.improving == Some(diff >= 0) && (
                        points@[q - 1].total == 0 ==> line.diff_percent is None) && (points@[q
                            - 1].total != 0 ==> line.diff_percent == Some(
                            spec_div_trunc(
                                points@[q].total * 100,
                                points@[q - 1].total as int,
                            ) as i128,
                        ))
                    })
                },
        decreases points@.len() - k,
    {
        let p = points[k];
        let line = if k == 0 {
            HistoryLine {
                date: p.date,
                total: p.total,
                diff: None,
                diff_percent: None,
                improving: None,
            }
        } else {
            let prev = points[k - 1].total;
            let diff: i128 = p.total as i128 - prev as i128;
            let percent: Option<i128> = if prev == 0 {
                None
            } else {
                let a: i128 = p.total as i128 * 100;
                let mag_a: u128 = if a >= 0 {
                    a as u128
                } else {
                    (-a) as u128
                };
                let mag_b: u128 = if prev >= 0 {
                    prev as u128
                } else {
                    (-(prev as i128)) as u128
                };
                let q: u128 = mag_a / mag_b;
                let pct: i128 = if (a < 0) != (prev < 0) {
                    -(q as i128)
                } else {
                    q as i128
                };
                proof {
                    assert(mag_a as int == spec_abs(p.total as int * 100));
                    assert(mag_b as int == spec_abs(prev as int));
                    assert(pct as int == spec_div_trunc(p.total as int * 100, prev as int));
                }
                Some(pct)
            };
            HistoryLine {
                date: p.date,
                total: p.total,
                diff: Some(diff),
                diff_percent: percent,
                improving: Some(diff >= 0),
            }
        };
        out.push(line);
        k += 1;
    }
    out
}

/// The mathematical content of an exchange-rate document.
pub struct RatesModel {
    pub base: Seq<char>,
    pub rates: Seq<(Seq<char>, u64)>,
}

/// Current exchange rates against one base currency, as plain values. A
/// rate is held in micro-units: `rate` micro-units of the listed currency
/// buy one unit of the base, so an amount in the listed currency divides by
/// the rate to convert into the base.
pub struct ExchangeRates {
    pub base: String,
    pub rates: Vec<(String, u64)>,
}

impl View for ExchangeRates {
    type V = RatesModel;

    open spec fn view(&self) -> RatesModel {
        RatesModel {
            base: self.base@,
            rates: Seq::new(self.rates@.len(), |k: int| (self.rates@[k].0@, self.rates@[k].1)),
        }
    }
}

/// The first listed rate for a currency code, if any.
pub open spec fn spec_rate_of(rates: Seq<(Seq<char>, u64)>, code: Seq<char>) -> Option<u64>
    decreases rates.len(),
{
    if rates.len() == 0 {
        None
    } else if rates[0].0 == code {
        Some(rates[0].1)
    } else {
        spec_rate_of(rates.drop_first(), code)
    }
}

/// A list with no matching code lists no rate.
proof fn lemma_rate_of_none(rates: Seq<(Seq<char>, u64)>, code: Seq<char>)
    requires
        forall|l: int| 0 <= l < rates.len() ==> (#[trigger] rates[l]).0 != code,
    ensures
        spec_rate_of(rates, code) is None,
    decreases rates.len(),
{
    if rates.len() > 0 {
        assert(forall|l: int|
            0 <= l < rates.drop_first().len() ==> #[trigger] rates.drop_first()[l] == rates[l
                + 1]);
        lemma_rate_of_none(rates.drop_first(), code);
    }
}

/// The first listed rate is the one at the first matching position.
proof fn lemma_rate_of_at(rates: Seq<(Seq<char>, u64)>, code: Seq<char>, k: int)
    requires
        0 <= k < rates.len(),
        rates[k].0 == code,
        forall|l: int| 0 <= l < k ==> (#[trigger] rates[l]).0 != code,
    ensures
        spec_rate_of(rates, code) == Some(rates[k].1),
    decreases rates.len(),
{
    if k > 0 {
        assert(forall|l: int|
            0 <= l < rates.drop_first().len() ==> #[trigger] rates.drop_first()[l] == rates[l
                + 1]);
        lemma_rate_of_at(rates.drop_first(), code, k - 1);
    }
}

impl ExchangeRates {
    /// The listed rate for a currency code, if any.
    pub fn rate_of(&self, code: &str) -> (r: Option<u64>)
        ensures
            r == spec_rate_of(self@.rates, code@),
    {
        let mut i: usize = 0;
        while i < self.rates.len()
            invariant
                0 <= i <= self.rates@.len(),
                forall|l: int| 0 <= l < i ==> #[trigger] self.rates@[l].0@ != code@,
            decreases self.rates@.len() - i,
        {
            if crate::str_eq(self.rates[i].0.as_str(), code) {
                proof {
                    assert(self@.rates[i as int] == (self.rates@[i as int].0@, self.rates@[i as int].1));
                    assert forall|l: int| 0 <= l < i implies (#[trigger] self@.rates[l]).0
                        != code@ by {
                        assert(self@.rates[l] == (self.rates@[l].0@, self.rates@[l].1));
                    }
                    lemma_rate_of_at(self@.rates, code@, i as int);
                }
                return Some(self.rates[i].1);
            }
            i += 1;
        }
        proof {
            assert forall|l: int| 0 <= l < self@.rates.len() implies (#[trigger] self@.rates[l]).0
                != code@ by {
                assert(self@.rates[l] == (self.rates@[l].0@, self.rates@[l].1));
            }
            lemma_rate_of_none(self@.rates, code@);
        }
        None
    }
}

/// An amount of a listed currency converted into the base at a micro-unit
/// rate: the amount is scaled to micro-units, divided by the rate, and
/// rounded to the nearest integer, halves away from zero.
pub open spec fn spec_converted(amount: i32, rate: u64) -> int
    recommends
        rate > 0,
{
    let m = spec_abs(amount as int) * 1_000_000;
    let q = (2 * m + rate) / (2 * rate);
    if amount < 0 {
        -q
    } else {
        q
    }
}

/// Converts one amount into the base currency at a micro-unit rate.
fn convert_amount(amount: i32, rate: u64) -> (r: i64)
    requires
        rate > 0,
    ensures
        r as int == spec_converted(amount, rate),
        -0x8_0000_0000_0000 <= r <= 0x8_0000_0000_0000,
{
    let a: i64 = amount as i64;
    let m_i: i64 = if a >= 0 {
        a
    } else {
        -a
    };
    let m_u: u128 = (m_i as u128) * 1_000_000;
    let d_u: u128 = rate as u128;
    let q: u128 = (2 * m_u + d_u) / (2 * d_u);
    proof {
        assert(m_u <= 0x8_0000_0000_0000);
        vstd::arithmetic::div_mod::lemma_fundamental_div_mod(
            2 * m_u as int + d_u as int,
            2 * d_u as int,
        );
        assert(q as int <= m_u as int) by (nonlinear_arith)
            requires
                (q as int) * (2 * d_u as int) <= 2 * m_u as int + d_u as int,
                d_u as int >= 1,
                q as int >= 0,
                m_u as int >= 0,
        ;
    }
    if amount < 0 {
        -(q as i64)
    } else {
        q as i64
    }
}

/// The converted latest table of one listed currency: each account's
/// latest snapshot with its amount converted into the base.
pub open spec fn spec_conv_lines(m: crate::store::StoreModel, cur: Seq<char>, rate: u64) -> Seq<
    (SnapshotModel, AccountModel, int),
> {
    let t = spec_latest_table(m, cur);
    Seq::new(t.len(), |k: int| (t[k].0, t[k].1, spec_converted(t[k].0.amount, rate)))
}

/// The sum of the converted amounts of a latest table.
pub open spec fn spec_conv_total(t: Seq<(SnapshotModel, AccountModel)>, rate: u64) -> int
    decreases t.len(),
{
    if t.len() == 0 {
        0
    } else {
        spec_conv_total(t.drop_last(), rate) + spec_converted(t.last().0.amount, rate)
    }
}

/// A converted sum is bounded by the table's length times the largest
/// converted amount.
proof fn lemma_conv_total_bound(t: Seq<(SnapshotModel, AccountModel)>, rate: u64)
    requires
        rate > 0,
    ensures
        -(t.len() as int) * 0x8_0000_0000_0000 <= spec_conv_total(t, rate) <= (t.len() as int)
            * 0x8_0000_0000_0000,
    decreases t.len(),
{
    if t.len() > 0 {
        lemma_conv_total_bound(t.drop_last(), rate);
        let c: int = 0x8_0000_0000_0000;
        assert((t.len() as int) * c == (t.len() as int - 1) * c + c) by (nonlinear_arith);
        let amount = t.last().0.amount;
        let m = spec_abs(amount as int) * 1_000_000;
        vstd::arithmetic::div_mod::lemma_fundamental_div_mod(
            2 * m + rate as int,
            2 * rate as int,
        );
        let q = (2 * m + rate) / (2 * rate as int);
        assert(0 <= q <= m) by (nonlinear_arith)
            requires
                q * (2 * rate as int) <= 2 * m + rate,
                2 * m + rate - q * (2 * rate as int) < 2 * rate as int,
                rate as int >= 1,
                m >= 0,
        ;
    }
}

/// The latest balances of one listed currency converted into the base.
pub struct NetWorthSection {
    /// The listed currency.
    pub currency: Currency,
    /// Micro-units of the listed currency per one unit of the base.
    pub rate_micro: u64,
    /// Each account's latest snapshot with the converted amount.
    pub lines: Vec<(Snapshot, Account, i64)>,
}

/// Net worth in one base currency: the base accounts' latest balances, a
/// converted section per other currency, and the grand total.
pub struct NetWorthReport {
    pub base: Currency,
    pub base_lines: Vec<(Snapshot, Account)>,
    pub sections: Vec<NetWorthSection>,
    pub total: i64,
}

/// Builds one converted section and its exact converted sum.
fn converted_section(store: &Store, cur: Currency, rate: u64) -> (r: (NetWorthSection, i128))
    requires
        rate > 0,
    ensures
        r.0.currency == cur,
        r.0.rate_micro == rate,
        Seq::new(
            r.0.lines@.len(),
            |k: int| (r.0.lines@[k].0@, r.0.lines@[k].1@, r.0.lines@[k].2 as int),
        ) == spec_conv_lines(store@, cur.spec_code(), rate),
        r.1 as int == spec_conv_total(spec_latest_table(store@, cur.spec_code()), rate),
{
    let ghost t = spec_latest_table(store@, cur.spec_code());
    let table = Snapshot::latest_per_account(store, cur.as_str());
    let mut lines: Vec<(Snapshot, Account, i64)> = Vec::new();
    let mut acc: i128 = 0;
    let mut k: usize = 0;
    while k < table.len()
        invariant
            rate > 0,
            t == spec_latest_table(store@, cur.spec_code()),
            Seq::new(table@.len(), |k: int| (table@[k].0@, table@[k].1@)) == t,
            0 <= k <= table@.len(),
            lines@.len() == k,
            forall|q: int|
                0 <= q < k ==> (#[trigger] lines@[q]).0@ == t[q].0 && lines@[q].1@ == t[q].1
                    && lines@[q].2 as int == spec_converted(t[q].0.amount, rate),
            acc as int == spec_conv_total(t.take(k as int), rate),
            -(k as int) * 0x8_0000_0000_0000 <= acc as int <= (k as int) * 0x8_0000_0000_0000,
        decreases table@.len() - k,
    {
        proof {
            assert(t.take(k + 1 as int).drop_last() =~= t.take(k as int));
            assert(t.take(k + 1 as int).last() == t[k as int]);
            assert(t[k as int] == (table@[k as int].0@, table@[k as int].1@));
            let c: int = 0x8_0000_0000_0000;
            assert((k as int) * c + c == (k as int + 1) * c) by (nonlinear_arith);
            lemma_mul_inequality(k as int + 1, usize::MAX as int, c);
            lemma_mul_inequality(usize::MAX as int, u64::MAX as int, c);
        }
        let entry = &table[k];
        let conv = convert_amount(entry.0.amount, rate);
        let s = entry.0.clone();
        let a = entry.1.clone();
        lines.push((s, a, conv));
        acc = acc + conv as i128;
        k += 1;
    }
    proof {
        assert(t.take(table@.len() as int) =~= t);
        assert(Seq::new(
            lines@.len(),
            |k: int| (lines@[k].0@, lines@[k].1@, lines@[k].2 as int),
        ) =~= spec_conv_lines(store@, cur.spec_code(), rate));
    }
    (NetWorthSection { currency: cur, rate_micro: rate, lines }, acc)
}

/// Net worth in the given base currency: the base accounts' latest
/// balances, plus — for each of the two other currencies — every latest
/// balance converted at the given rates, summed into one grand total. A
/// missing or zero rate for either currency fails with
/// `ExchangeRateUnavailable`; a grand total that does not fit the 64-bit
/// signed range is rejected as `Overflow`, never wrapped.
pub fn net_worth(store: &Store, base: &Currency, rates: &ExchangeRates) -> (r: Result<
    NetWorthReport,
    ReportError,
>)
    ensures
        ({
            let code = base.spec_code();
            let others = base.spec_others();
            let r1 = spec_rate_of(rates@.rates, others.0.spec_code());
            let r2 = spec_rate_of(rates@.rates, others.1.spec_code());
            if r1 is None || r1 == Some(0u64) || r2 is None || r2 == Some(0u64) {
                r == Err::<NetWorthReport, ReportError>(ReportError::ExchangeRateUnavailable)
            } else {
                let grand = spec_latest_total(store@, code) + spec_conv_total(
                    spec_latest_table(store@, others.0.spec_code()),
                    r1->Some_0,
                ) + spec_conv_total(spec_latest_table(store@, others.1.spec_code()), r2->Some_0);
                match r {
                    Ok(rep) => spec_fits_i64(grand) && rep.total as int == grand && rep.base
                        == *base && Seq::new(
                        rep.base_lines@.len(),
                        |k: int| (rep.base_lines@[k].0@, rep.base_lines@[k].1@),
                    ) == spec_latest_table(store@, code) && rep.sections@.len() == 2
                        && rep.sections@[0].currency == others.0 && rep.sections@[0].rate_micro
                        == r1->Some_0 && Seq::new(
                        rep.sections@[0].lines@.len(),
                        |k: int|
                            (
                                rep.sections@[0].lines@[k].0@,
                                rep.sections@[0].lines@[k].1@,
                                rep.sections@[0].lines@[k].2 as int,
                            ),
                    ) == spec_conv_lines(store@, others.0.spec_code(), r1->Some_0)
                        && rep.sections@[1].currency == others.1 && rep.sections@[1].rate_micro
                        == r2->Some_0 && Seq::new(
                        rep.sections@[1].lines@.len(),
                        |k: int|
                            (
                                rep.sections@[1].lines@[k].0@,
                                rep.sections@[1].lines@[k].1@,
                                rep.sections@[1].lines@[k].2 as int,
                            ),
                    ) == spec_conv_lines(store@, others.1.spec_code(), r2->Some_0),
                    Err(e) => e == ReportError::Overflow && !spec_fits_i64(grand),
                }
            }
        }),
{
    let others = base.the_others();
    let rate1 = match rates.rate_of(others[0].as_str()) {
        Some(x) => x,
        None => {
            return Err(ReportError::ExchangeRateUnavailable);
        },
    };
    let rate2 = match rates.rate_of(others[1].as_str()) {
        Some(x) => x,
        None => {
            return Err(ReportError::ExchangeRateUnavailable);
        },
    };
    if rate1 == 0 || rate2 == 0 {
        return Err(ReportError::ExchangeRateUnavailable);
    }
    let base_lines = Snapshot::latest_per_account(store, base.as_str());
    let base_total = table_total(&base_lines);
    let (sec1, conv1) = converted_section(store, others[0], rate1);
    let (sec2, conv2) = converted_section(store, others[1], rate2);
    let n0 = base_lines.len();
    let n1 = sec1.lines.len();
    let n2 = sec2.lines.len();
    proof {
        let tv0 = Seq::new(base_lines@.len(), |k: int| (base_lines@[k].0@, base_lines@[k].1@));
        let t1 = spec_latest_table(store@, others[0].spec_code());
        let t2 = spec_latest_table(store@, others[1].spec_code());
        lemma_table_total_bound(tv0);
        lemma_conv_total_bound(t1, rate1);
        lemma_conv_total_bound(t2, rate2);
        assert(tv0.len() == n0 as int);
        assert(Seq::new(
            sec1.lines@.len(),
            |k: int| (sec1.lines@[k].0@, sec1.lines@[k].1@, sec1.lines@[k].2 as int),
        ).len() == spec_conv_lines(store@, others[0].spec_code(), rate1).len());
        assert(Seq::new(
            sec2.lines@.len(),
            |k: int| (sec2.lines@[k].0@, sec2.lines@[k].1@, sec2.lines@[k].2 as int),
        ).len() == spec_conv_lines(store@, others[1].spec_code(), rate2).len());
        assert(t1.len() == n1 as int);
        assert(t2.len() == n2 as int);
        let c31: int = 0x8000_0000;
        let c51: int = 0x8_0000_0000_0000;
        lemma_mul_inequality(n0 as int, u64::MAX as int, c31);
        lemma_mul_inequality(n1 as int, u64::MAX as int, c51);
        lemma_mul_inequality(n2 as int, u64::MAX as int, c51);
    }
    let grand: i128 = base_total + conv1 + conv2;
    if grand < i64::MIN as i128 || grand > i64::MAX as i128 {
        return Err(ReportError::Overflow);
    }
    let mut sections: Vec<NetWorthSection> = Vec::new();
    sections.push(sec1);
    sections.push(sec2);
    Ok(
        NetWorthReport {
            base: *base,
            base_lines,
            sections,
            total: grand as i64,
        },
    )
}


} // verus!
