//! The ledger state: the sequence counter, invoice entries with their
//! payments, derived payment status, and the migration of the legacy
//! `paid` flag into an itemized payment list.

use vstd::prelude::*;

use crate::date::Date;
use crate::money::MAX_TOTAL_CENTS;

verus! {

/// The per-ledger invoice number counter.
#[derive(Clone, Copy, Debug, PartialEq, Eq, Structural)]
pub struct Counter {
    pub last_number: u32,
    pub last_year: u32,
}

impl Counter {
    /// The counter of a fresh ledger: nothing issued yet in the current year.
    pub fn initial(current_year: u32) -> (c: Counter)
        ensures
            c.last_number == 0,
            c.last_year == current_year,
    {
        Counter { last_number: 0, last_year: current_year }
    }
}

/// One recorded payment; `amount` is in cents.
#[derive(Clone, Copy, Debug, PartialEq, Eq, Structural)]
pub struct Payment {
    pub amount: i64,
    pub date: Date,
}

/// Invoice status derived from payment history.
#[derive(Clone, Copy, Debug, PartialEq, Eq, Structural)]
pub enum PaymentStatus {
    Unpaid,
    Partial,
    Paid,
}

impl PaymentStatus {
    /// The display label of a status.
    pub open spec fn spec_label(self) -> Seq<char> {
        match self {
            PaymentStatus::Unpaid => "UNPAID"@,
            PaymentStatus::Partial => "PARTIAL"@,
            PaymentStatus::Paid => "PAID"@,
        }
    }

    /// Renders the status as its display label.
    pub fn label(&self) -> (s: String)
        ensures
            s@ == self.spec_label(),
    {
        match self {
            PaymentStatus::Unpaid => {
                let v = crate::strings::str_to_chars("UNPAID");
                crate::strings::chars_to_string(&v)
            },
            PaymentStatus::Partial => {
                let v = crate::strings::str_to_chars("PARTIAL");
                crate::strings::chars_to_string(&v)
            },
            PaymentStatus::Paid => {
                let v = crate::strings::str_to_chars("PAID");
                crate::strings::chars_to_string(&v)
            },
        }
    }
}

/// The sum of the payment amounts, as a mathematical integer.
pub open spec fn spec_sum_payments(ps: Seq<Payment>) -> int
    decreases ps.len(),
{
    if ps.len() == 0 {
        0
    } else {
        spec_sum_payments(ps.drop_last()) + ps.last().amount
    }
}

/// The sum of a prefix of non-negative payments is bounded by the full sum.
pub proof fn lemma_sum_take_le(ps: Seq<Payment>, i: int)
    requires
        0 <= i <= ps.len(),
        forall|j: int| 0 <= j < ps.len() ==> ps[j].amount >= 0,
    ensures
        spec_sum_payments(ps.take(i)) <= spec_sum_payments(ps),
    decreases ps.len() - i,
{
    if i == ps.len() {
        assert(ps.take(i) =~= ps);
    } else {
        lemma_sum_take_le(ps, i + 1);
        assert(ps.take(i + 1).drop_last() =~= ps.take(i));
        assert(ps.take(i + 1).last() == ps[i]);
    }
}

/// Appending one payment extends the sum by its amount.
pub proof fn lemma_sum_take_step(ps: Seq<Payment>, i: int)
    requires
        0 <= i < ps.len(),
    ensures
        spec_sum_payments(ps.take(i + 1)) == spec_sum_payments(ps.take(i)) + ps[i].amount,
{
    assert(ps.take(i + 1).drop_last() =~= ps.take(i));
    assert(ps.take(i + 1).last() == ps[i]);
}

/// A sum of non-negative payments is non-negative.
pub proof fn lemma_sum_nonneg(ps: Seq<Payment>)
    requires
        forall|j: int| 0 <= j < ps.len() ==> ps[j].amount >= 0,
    ensures
        spec_sum_payments(ps) >= 0,
    decreases ps.len(),
{
    if ps.len() > 0 {
        lemma_sum_nonneg(ps.drop_last());
    }
}

/// The mathematical model of one ledger entry.
pub ghost struct EntryModel {
    pub number: Seq<char>,
    pub client: Seq<char>,
    pub date: Date,
    pub total: i64,
    pub file: Seq<char>,
    pub payments: Seq<Payment>,
    pub items: Seq<Seq<char>>,
}

impl EntryModel {
    /// Sum of all recorded payments, in cents.
    pub open spec fn paid_amount(self) -> int {
        spec_sum_payments(self.payments)
    }

    /// Remaining balance, in cents.
    pub open spec fn outstanding(self) -> int {
        self.total - self.paid_amount()
    }

    /// Derived payment status: unpaid until money arrives, paid once the
    /// full total is covered, partial in between.
    pub open spec fn status(self) -> PaymentStatus {
        if self.paid_amount() <= 0 {
            PaymentStatus::Unpaid
        } else if self.paid_amount() >= self.total {
            PaymentStatus::Paid
        } else {
            PaymentStatus::Partial
        }
    }

    /// The entry invariant: the total and the payments are sane amounts and
    /// no payment is negative. The stronger property that the payments never
    /// exceed the total is what `add_payment` enforces; an edit that lowers
    /// the total can leave an entry overpaid, as the ledger allows.
    pub open spec fn wf(self) -> bool {
        &&& 0 <= self.total <= MAX_TOTAL_CENTS
        &&& forall|j: int| 0 <= j < self.payments.len() ==> self.payments[j].amount >= 0
        &&& spec_sum_payments(self.payments) <= MAX_TOTAL_CENTS
    }
}

/// One invoice record in the ledger history.
#[derive(Debug, Clone)]
pub struct HistoryEntry {
    pub number: String,
    pub client: String,
    pub date: Date,
    pub total: i64,
    pub file: String,
    pub payments: Vec<Payment>,
    pub items: Vec<String>,
}

impl View for HistoryEntry {
    type V = EntryModel;

    open spec fn view(&self) -> EntryModel {
        EntryModel {
            number: self.number@,
            client: self.client@,
            date: self.date,
            total: self.total,
            file: self.file@,
            payments: self.payments@,
            items: self.items.deep_view(),
        }
    }
}

impl HistoryEntry {
    /// Sum of all recorded payments.
    pub fn paid_amount(&self) -> (r: i64)
        requires
            self@.wf(),
        ensures
            r == self@.paid_amount(),
    {
        let ghost ps = self.payments@;
        let mut sum: i64 = 0;
        let mut i: usize = 0;
        proof {
            assert(ps.take(0) =~= Seq::<Payment>::empty());
        }
        while i < self.payments.len()
            invariant
                i <= ps.len(),
                ps == self.payments@,
                self@.wf(),
                sum == spec_sum_payments(ps.take(i as int)),
                0 <= sum <= MAX_TOTAL_CENTS,
            decreases ps.len() - i,
        {
            proof {
                lemma_sum_take_step(ps, i as int);
                lemma_sum_take_le(ps, i + 1);
                lemma_sum_nonneg(ps.take(i + 1));
            }
            sum = sum + self.payments[i].amount;
            i = i + 1;
        }
        proof {
            assert(ps.take(ps.len() as int) =~= ps);
        }
        sum
    }

    /// Remaining balance on this invoice.
    pub fn outstanding(&self) -> (r: i64)
        requires
            self@.wf(),
        ensures
            r == self@.outstanding(),
    {
        let paid = self.paid_amount();
        proof {
            lemma_sum_nonneg(self.payments@);
        }
        self.total - paid
    }

    /// Auto-derived payment status.
    pub fn status(&self) -> (r: PaymentStatus)
        requires
            self@.wf(),
        ensures
            r == self@.status(),
    {
        let paid = self.paid_amount();
        if paid <= 0 {
            PaymentStatus::Unpaid
        } else if paid >= self.total {
            PaymentStatus::Paid
        } else {
            PaymentStatus::Partial
        }
    }

    /// Whether the entry invariant holds; callers use this to validate a
    /// freshly loaded ledger.
    pub fn is_wf(&self) -> (r: bool)
        ensures
            r == self@.wf(),
    {
        if self.total < 0 || self.total > MAX_TOTAL_CENTS {
            return false;
        }
        let ghost ps = self.payments@;
        let mut sum: i64 = 0;
        let mut i: usize = 0;
        proof {
            assert(ps.take(0) =~= Seq::<Payment>::empty());
        }
        while i < self.payments.len()
            invariant
                i <= ps.len(),
                ps == self.payments@,
                0 <= self.total <= MAX_TOTAL_CENTS,
                sum == spec_sum_payments(ps.take(i as int)),
                0 <= sum <= MAX_TOTAL_CENTS,
                forall|j: int| 0 <= j < i ==> ps[j].amount >= 0,
            decreases ps.len() - i,
        {
            let a = self.payments[i].amount;
            if a < 0 {
                return false;
            }
            if a > MAX_TOTAL_CENTS - sum {
                // this prefix already exceeds the total, so the whole sum
                // does too unless some later amount is negative
                proof {
                    lemma_sum_take_step(ps, i as int);
                    if self@.wf() {
                        lemma_sum_take_le(ps, i + 1);
                        assert(false);
                    }
                }
                return false;
            }
            proof {
                lemma_sum_take_step(ps, i as int);
            }
            sum = sum + a;
            i = i + 1;
        }
        proof {
            assert(ps.take(ps.len() as int) =~= ps);
        }
        true
    }
}

/// The mathematical model of the whole ledger.
pub ghost struct StateModel {
    pub counter: Counter,
    pub history: Seq<EntryModel>,
}

impl StateModel {
    /// Every entry in the ledger satisfies its invariant.
    pub open spec fn wf(self) -> bool {
        forall|i: int| 0 <= i < self.history.len() ==> #[trigger] self.history[i].wf()
    }
}

/// The full persisted ledger: counter plus append-ordered history.
#[derive(Debug, Clone)]
pub struct State {
    pub counter: Counter,
    pub history: Vec<HistoryEntry>,
}

impl View for State {
    type V = StateModel;

    open spec fn view(&self) -> StateModel {
        StateModel {
            counter: self.counter,
            history: self.history@.map_values(|e: HistoryEntry| e@),
        }
    }
}

impl State {
    /// A fresh, empty ledger for the given calendar year.
    pub fn empty(current_year: u32) -> (s: State)
        ensures
            s@.counter.last_number == 0,
            s@.counter.last_year == current_year,
            s@.history.len() == 0,
            s@.wf(),
    {
        State { counter: Counter::initial(current_year), history: Vec::new() }
    }

    /// Whether every entry satisfies its invariant; callers use this to
    /// validate a freshly loaded ledger.
    pub fn is_wf(&self) -> (r: bool)
        ensures
            r == self@.wf(),
    {
        let mut i: usize = 0;
        while i < self.history.len()
            invariant
                i <= self.history@.len(),
                forall|j: int| 0 <= j < i ==> #[trigger] self@.history[j].wf(),
            decreases self.history@.len() - i,
        {
            if !self.history[i].is_wf() {
                proof {
                    assert(self@.history[i as int] == self.history@[i as int]@);
                }
                return false;
            }
            i = i + 1;
        }
        true
    }
}

/// The raw on-disk shape of one entry: it may carry the deprecated boolean
/// `paid` flag instead of (or beside) a `payments` list.
#[derive(Debug, Clone)]
pub struct RawHistoryEntry {
    pub number: String,
    pub client: String,
    pub date: Date,
    pub total: i64,
    pub file: String,
    pub paid: Option<bool>,
    pub payments: Vec<Payment>,
    pub items: Vec<String>,
}

/// The mathematical model of a raw entry.
pub ghost struct RawEntryModel {
    pub number: Seq<char>,
    pub client: Seq<char>,
    pub date: Date,
    pub total: i64,
    pub file: Seq<char>,
    pub paid: Option<bool>,
    pub payments: Seq<Payment>,
    pub items: Seq<Seq<char>>,
}

impl View for RawHistoryEntry {
    type V = RawEntryModel;

    open spec fn view(&self) -> RawEntryModel {
        RawEntryModel {
            number: self.number@,
            client: self.client@,
            date: self.date,
            total: self.total,
            file: self.file@,
            paid: self.paid,
            payments: self.payments@,
            items: self.items.deep_view(),
        }
    }
}

/// What migration makes of a raw entry: a present, non-empty payment list is
/// taken as-is; otherwise a legacy `paid = true` flag becomes a single
/// payment of the full total dated the issue date; otherwise no payments.
pub open spec fn spec_migrate(r: RawEntryModel) -> EntryModel {
    EntryModel {
        number: r.number,
        client: r.client,
        date: r.date,
        total: r.total,
        file: r.file,
        payments: if r.payments.len() > 0 {
            r.payments
        } else if r.paid == Some(true) {
            seq![Payment { amount: r.total, date: r.date }]
        } else {
            Seq::<Payment>::empty()
        },
        items: r.items,
    }
}

/// The raw shape of an already-canonical entry, under a given legacy flag.
pub open spec fn spec_raw_of(e: EntryModel, paid: Option<bool>) -> RawEntryModel {
    RawEntryModel {
        number: e.number,
        client: e.client,
        date: e.date,
        total: e.total,
        file: e.file,
        paid,
        payments: e.payments,
        items: e.items,
    }
}

/// Law: migration of a legacy `paid = true` entry without payments yields
/// exactly one payment of the full total dated the issue date, and migration
/// is idempotent — migrating a migrated entry again, whether the stored
/// legacy flag survived or was dropped on save, changes nothing.
pub proof fn lemma_migration_idempotent(r: RawEntryModel)
    ensures
        (r.payments.len() == 0 && r.paid == Some(true)) ==> spec_migrate(r).payments == seq![
            Payment { amount: r.total, date: r.date },
        ],
        spec_migrate(spec_raw_of(spec_migrate(r), r.paid)) == spec_migrate(r),
        spec_migrate(spec_raw_of(spec_migrate(r), None)) == spec_migrate(r),
{
}

/// Normalizes one raw entry into its canonical shape.
pub fn migrate_entry(raw: RawHistoryEntry) -> (e: HistoryEntry)
    ensures
        e@ == spec_migrate(raw@),
{
    let ghost rm = raw@;
    let RawHistoryEntry { number, client, date, total, file, paid, payments, items } = raw;
    let migrated: Vec<Payment> = if payments.len() > 0 {
        payments
    } else {
        match paid {
            Some(true) => {
                let mut v: Vec<Payment> = Vec::new();
                v.push(Payment { amount: total, date });
                proof {
                    assert(v@ =~= seq![Payment { amount: rm.total, date: rm.date }]);
                }
                v
            },
            _ => Vec::new(),
        }
    };
    let e = HistoryEntry { number, client, date, total, file, payments: migrated, items };
    proof {
        assert(e@.payments =~= spec_migrate(rm).payments);
    }
    e
}

/// Normalizes a whole raw history, in order.
pub fn migrate_entries(raws: Vec<RawHistoryEntry>) -> (es: Vec<HistoryEntry>)
    ensures
        es@.len() == raws@.len(),
        forall|i: int| 0 <= i < raws@.len() ==> #[trigger] es@[i]@ == spec_migrate(raws@[i]@),
{
    let ghost orig = raws@;
    let mut raws = raws;
    let mut es: Vec<HistoryEntry> = Vec::new();
    while raws.len() > 0
        invariant
            es@.len() + raws@.len() == orig.len(),
            raws@ == orig.skip(es@.len() as int),
            forall|i: int| 0 <= i < es@.len() ==> #[trigger] es@[i]@ == spec_migrate(orig[i]@),
        decreases raws@.len(),
    {
        let ghost done = es@.len() as int;
        let raw = raws.remove(0);
        proof {
            assert(raw@ == orig[done]@);
            assert(orig.skip(done).skip(1) =~= orig.skip(done + 1));
        }
        es.push(migrate_entry(raw));
    }
    proof {
        assert(orig.skip(0) =~= orig);
    }
    es
}

/// Law: an entry's paid amount and outstanding balance always recombine to
/// its total, exactly.
pub proof fn lemma_paid_plus_outstanding(e: EntryModel)
    ensures
        e.paid_amount() + e.outstanding() == e.total,
{
}

/// Law: a paid entry has nothing outstanding, and an unpaid entry has no
/// money received.
pub proof fn lemma_status_bounds(e: EntryModel)
    ensures
        e.status() == PaymentStatus::Paid ==> e.outstanding() <= 0,
        e.status() == PaymentStatus::Unpaid ==> e.paid_amount() <= 0,
{
}

} // verus!
