//! Which messages a query returns: the list ordered by date, then the query
//! options (reverse, first or last only, a limit, an index range, a date
//! range, pinned only) or a split into pages.
use crate::error::Error;
use vstd::prelude::*;

verus! {

/// What a query reads of a message document.
#[derive(PartialEq, Eq, Structural, Clone, Copy)]
pub struct MessageMeta {
    pub id: u128,
    /// Nanoseconds since the epoch.
    pub date: i64,
    pub pinned: bool,
}

/// How messages are returned.
#[derive(PartialEq, Eq, Structural, Clone, Copy)]
pub enum MessagesType {
    Stream,
    List,
    Pages { page: Option<usize>, amount_per_page: Option<usize> },
}

/// The options of a message query.
pub struct MessageOptions {
    /// Inclusive bounds on the date.
    pub date_range: Option<(i64, i64)>,
    /// Inclusive bounds on the position in the (possibly reversed) list.
    pub range: Option<(usize, usize)>,
    pub limit: Option<u8>,
    pub reverse: bool,
    pub first_message: bool,
    pub last_message: bool,
    pub pinned: bool,
    pub keyword: Option<String>,
    pub messages_type: MessagesType,
}

/// First position in `t` whose date is not before `date`.
pub open spec fn date_slot(t: Seq<MessageMeta>, date: i64, j: int) -> int
    decreases t.len() - j,
{
    if j < 0 || j >= t.len() {
        t.len() as int
    } else if t[j].date >= date {
        j
    } else {
        date_slot(t, date, j + 1)
    }
}

/// Adding one message to a date-ordered set: a message whose date is already
/// there is dropped, any other goes in its place by date.
pub open spec fn set_insert(t: Seq<MessageMeta>, x: MessageMeta) -> Seq<MessageMeta> {
    let j = date_slot(t, x.date, 0);
    if j < t.len() && t[j].date == x.date {
        t
    } else {
        t.insert(j, x)
    }
}

/// The messages collected into a set ordered by date, in the given order.
pub open spec fn collect_by_date(s: Seq<MessageMeta>) -> Seq<MessageMeta>
    decreases s.len(),
{
    if s.len() == 0 {
        Seq::empty()
    } else {
        set_insert(collect_by_date(s.drop_last()), s.last())
    }
}

/// Dates strictly increase along `t`.
pub open spec fn strictly_by_date(t: Seq<MessageMeta>) -> bool {
    forall|i: int, j: int| 0 <= i < j < t.len() ==> #[trigger] t[i].date < #[trigger] t[j].date
}

/// Whether the message at position `index` passes the range, date and pinned filters.
pub open spec fn passes(opts: &MessageOptions, index: int, m: MessageMeta) -> bool {
    &&& (opts.range matches Some(r) ==> !(r.0 > index || r.1 < index))
    &&& (opts.date_range matches Some(d) ==> d.0 <= m.date && m.date <= d.1)
    &&& (opts.pinned ==> m.pinned)
}

/// The messages yielded from position `i` on, with `remaining` still allowed
/// (`None`: no limit). `accepted[i]` tells whether message `i` could be read
/// and matches the query's keyword; a message that is not accepted does not
/// count against the limit.
pub open spec fn select_from(
    ms: Seq<MessageMeta>,
    opts: &MessageOptions,
    accepted: Seq<bool>,
    i: int,
    remaining: Option<nat>,
) -> Seq<MessageMeta>
    decreases ms.len() - i,
{
    if i < 0 || i >= ms.len() || remaining == Some(0nat) {
        Seq::empty()
    } else if !passes(opts, i, ms[i]) || !accepted[i] {
        select_from(ms, opts, accepted, i + 1, remaining)
    } else {
        seq![ms[i]] + select_from(
            ms,
            opts,
            accepted,
            i + 1,
            match remaining {
                Some(r) => Some((r - 1) as nat),
                None => None,
            },
        )
    }
}

pub open spec fn limit_nat(l: Option<u8>) -> Option<nat> {
    match l {
        Some(x) => Some(x as nat),
        None => None,
    }
}

/// The list in the query's order.
pub open spec fn oriented<T>(ms: Seq<T>, reverse: bool) -> Seq<T> {
    if reverse {
        ms.reverse()
    } else {
        ms
    }
}

/// What a query yields from the date-ordered list `ms`.
pub open spec fn spec_select(ms: Seq<MessageMeta>, opts: &MessageOptions, accepted: Seq<bool>) -> Seq<MessageMeta> {
    let m = oriented(ms, opts.reverse);
    if m.len() == 0 {
        Seq::empty()
    } else if opts.first_message {
        seq![m[0]]
    } else if opts.last_message {
        seq![m.last()]
    } else {
        select_from(m, opts, oriented(accepted, opts.reverse), 0, limit_nat(opts.limit))
    }
}

/// Collects messages into a set ordered by date: of several messages with
/// the same date, the first one given is kept.
pub fn collect_by_date_exec(s: &Vec<MessageMeta>) -> (r: Vec<MessageMeta>)
    ensures
        r@ == collect_by_date(s@),
        strictly_by_date(r@),
{
    let mut r: Vec<MessageMeta> = Vec::new();
    let mut i: usize = 0;
    while i < s.len()
        invariant
            i <= s@.len(),
            r@ == collect_by_date(s@.subrange(0, i as int)),
            strictly_by_date(r@),
        decreases s@.len() - i,
    {
        let x = s[i];
        let ghost before = r@;
        let mut j: usize = 0;
        while j < r.len() && r[j].date < x.date
            invariant
                j <= r@.len(),
                r@ == before,
                date_slot(before, x.date, 0) == date_slot(before, x.date, j as int),
            decreases r@.len() - j,
        {
            j += 1;
        }
        assert(date_slot(before, x.date, 0) == j);
        assert(s@.subrange(0, i + 1).drop_last() =~= s@.subrange(0, i as int));
        assert(s@.subrange(0, i + 1).last() == x);
        if j < r.len() && r[j].date == x.date {
        } else {
            proof {
                lemma_date_slot_bounds(before, x.date, 0);
            }
            r.insert(j, x);
            assert forall|a: int, b: int| 0 <= a < b < r@.len() implies #[trigger] r@[a].date < #[trigger] r@[b].date by {
                if b < j {
                } else if a > j {
                    assert(r@[a] == before[a - 1]);
                    assert(r@[b] == before[b - 1]);
                } else if a == j {
                    assert(r@[b] == before[b - 1]);
                    if b - 1 > j {
                        assert(before[j as int].date < before[b - 1].date);
                    }
                } else if b == j {
                    assert(r@[a] == before[a]);
                } else {
                    assert(r@[a] == before[a]);
                    assert(r@[b] == before[b - 1]);
                }
            }
        }
        i += 1;
    }
    assert(s@.subrange(0, s@.len() as int) =~= s@);
    r
}

proof fn lemma_date_slot_bounds(t: Seq<MessageMeta>, date: i64, j: int)
    requires
        0 <= j <= t.len(),
    ensures
        j <= date_slot(t, date, j) <= t.len(),
        forall|k: int| j <= k < date_slot(t, date, j) ==> #[trigger] t[k].date < date,
        date_slot(t, date, j) < t.len() ==> t[date_slot(t, date, j)].date >= date,
    decreases t.len() - j,
{
    if j < t.len() && t[j].date < date {
        lemma_date_slot_bounds(t, date, j + 1);
    }
}

fn reversed(s: &Vec<MessageMeta>) -> (r: Vec<MessageMeta>)
    ensures
        r@ == s@.reverse(),
{
    let mut r: Vec<MessageMeta> = Vec::new();
    let mut i: usize = s.len();
    while i > 0
        invariant
            i <= s@.len(),
            r@ == s@.subrange(i as int, s@.len() as int).reverse(),
        decreases i,
    {
        i -= 1;
        r.push(s[i]);
        assert(s@.subrange(i as int, s@.len() as int).reverse() =~= s@.subrange(i + 1, s@.len() as int).reverse().push(s@[i as int]));
    }
    assert(s@.subrange(0, s@.len() as int) =~= s@);
    r
}

fn reversed_bools(s: &Vec<bool>) -> (r: Vec<bool>)
    ensures
        r@ == s@.reverse(),
{
    let mut r: Vec<bool> = Vec::new();
    let mut i: usize = s.len();
    while i > 0
        invariant
            i <= s@.len(),
            r@ == s@.subrange(i as int, s@.len() as int).reverse(),
        decreases i,
    {
        i -= 1;
        r.push(s[i]);
        assert(s@.subrange(i as int, s@.len() as int).reverse() =~= s@.subrange(i + 1, s@.len() as int).reverse().push(s@[i as int]));
    }
    assert(s@.subrange(0, s@.len() as int) =~= s@);
    r
}

fn passes_exec(opts: &MessageOptions, index: usize, m: MessageMeta) -> (b: bool)
    ensures
        b == passes(opts, index as int, m),
{
    if let Some(r) = opts.range {
        if r.0 > index || r.1 < index {
            return false;
        }
    }
    if let Some(d) = opts.date_range {
        if !(m.date >= d.0 && m.date <= d.1) {
            return false;
        }
    }
    if opts.pinned && !m.pinned {
        return false;
    }
    true
}

/// The messages a query yields from the date-ordered list `ms`. `accepted`
/// has one flag per message of `ms`, in the same order.
pub fn select_messages(ms: &Vec<MessageMeta>, opts: &MessageOptions, accepted: &Vec<bool>) -> (r: Vec<MessageMeta>)
    requires
        accepted@.len() == ms@.len(),
    ensures
        r@ == spec_select(ms@, opts, accepted@),
{
    if ms.len() == 0 {
        return Vec::new();
    }
    let m = if opts.reverse { reversed(ms) } else { ms.clone() };
    let acc = if opts.reverse { reversed_bools(accepted) } else { accepted.clone() };
    assert(m@ == oriented(ms@, opts.reverse));
    assert(acc@ == oriented(accepted@, opts.reverse));
    assert(m@.len() == ms@.len());
    if opts.first_message {
        let mut r = Vec::new();
        r.push(m[0]);
        assert(r@ =~= seq![m@[0]]);
        return r;
    }
    if opts.last_message {
        let mut r = Vec::new();
        r.push(m[m.len() - 1]);
        assert(r@ =~= seq![m@.last()]);
        return r;
    }
    let mut remaining: Option<u8> = opts.limit;
    let mut r: Vec<MessageMeta> = Vec::new();
    let mut i: usize = 0;
    while i < m.len()
        invariant
            i <= m@.len(),
            acc@.len() == m@.len(),
            m@ == oriented(ms@, opts.reverse),
            acc@ == oriented(accepted@, opts.reverse),
            m@.len() > 0,
            !opts.first_message,
            !opts.last_message,
            r@ + select_from(m@, opts, acc@, i as int, limit_nat(remaining)) == select_from(
                m@,
                opts,
                acc@,
                0,
                limit_nat(opts.limit),
            ),
        decreases m@.len() - i,
    {
        if remaining == Some(0u8) {
            assert(select_from(m@, opts, acc@, i as int, limit_nat(remaining)) =~= Seq::<MessageMeta>::empty());
            assert(r@ + Seq::<MessageMeta>::empty() =~= r@);
            return r;
        }
        let doc = m[i];
        if passes_exec(opts, i, doc) && acc[i] {
            let ghost before = r@;
            let ghost rem0 = limit_nat(remaining);
            r.push(doc);
            remaining = match remaining {
                Some(x) => Some(x - 1),
                None => None,
            };
            assert(before + select_from(m@, opts, acc@, i as int, rem0) =~= r@ + select_from(
                m@,
                opts,
                acc@,
                i + 1,
                limit_nat(remaining),
            ));
        }
        i += 1;
    }
    assert(select_from(m@, opts, acc@, i as int, limit_nat(remaining)) =~= Seq::<MessageMeta>::empty());
    assert(r@ + Seq::<MessageMeta>::empty() =~= r@);
    r
}

/// One page of messages: its index and what it holds.
pub struct MessagePage {
    pub index: usize,
    pub messages: Vec<MessageMeta>,
}

/// The page size and the chosen page of a query: a missing or zero size
/// means 255 messages per page.
pub open spec fn spec_page_params(t: MessagesType) -> (Option<usize>, usize) {
    match t {
        MessagesType::Pages { page, amount_per_page } => (
            page,
            match amount_per_page {
                Some(a) => if a == 0 { 255usize } else { a },
                None => 255usize,
            },
        ),
        _ => (None, 255usize),
    }
}

/// Messages `[start, start + size)` of `m`, cut at its end.
pub open spec fn chunk<T>(m: Seq<T>, start: int, size: int) -> Seq<T> {
    m.subrange(start, if start + size < m.len() { start + size } else { m.len() as int })
}

/// The accepted messages of a chunk; with `pinned_only`, the pinned ones among them.
pub open spec fn keep(m: Seq<MessageMeta>, acc: Seq<bool>, pinned_only: bool) -> Seq<MessageMeta>
    decreases m.len(),
{
    if m.len() == 0 {
        Seq::empty()
    } else {
        keep(m.drop_last(), acc.drop_last(), pinned_only) + if acc.last() && (!pinned_only || m.last().pinned) {
            seq![m.last()]
        } else {
            Seq::empty()
        }
    }
}

/// The pages from position `start` on, the first of them numbered `index`.
pub open spec fn pages_from(
    m: Seq<MessageMeta>,
    acc: Seq<bool>,
    size: int,
    start: int,
    index: int,
    pinned_only: bool,
) -> Seq<(int, Seq<MessageMeta>)>
    decreases m.len() + size - start,
{
    if size <= 0 || start < 0 || start >= m.len() {
        Seq::empty()
    } else {
        seq![(index, keep(chunk(m, start, size), chunk(acc, start, size), pinned_only))] + pages_from(
            m,
            acc,
            size,
            start + size,
            index + 1,
            pinned_only,
        )
    }
}

pub open spec fn page_view(p: MessagePage) -> (int, Seq<MessageMeta>) {
    (p.index as int, p.messages@)
}

/// What a paged query answers: the pages and their total. With a page index
/// chosen, that page only (every accepted message of it) and a total of 1,
/// or an error when there is no such page; otherwise every page, keeping the
/// pinned messages only when the query asks so.
pub open spec fn spec_pages(ms: Seq<MessageMeta>, opts: &MessageOptions, accepted: Seq<bool>) -> Result<
    (Seq<(int, Seq<MessageMeta>)>, int),
    Error,
> {
    let m = oriented(ms, opts.reverse);
    let acc = oriented(accepted, opts.reverse);
    let (page, size) = spec_page_params(opts.messages_type);
    if m.len() == 0 {
        Ok((Seq::empty(), 0))
    } else {
        match page {
            Some(index) => if index * size < m.len() {
                Ok((seq![(index as int, keep(chunk(m, index * size, size as int), chunk(acc, index * size, size as int), false))], 1))
            } else {
                Err(Error::PageNotFound)
            },
            None => {
                let pages = pages_from(m, acc, size as int, 0, 0, opts.pinned);
                Ok((pages, pages.len() as int))
            },
        }
    }
}

fn keep_exec(m: &Vec<MessageMeta>, acc: &Vec<bool>, start: usize, end: usize, pinned_only: bool) -> (r: Vec<MessageMeta>)
    requires
        start <= end <= m@.len(),
        acc@.len() == m@.len(),
    ensures
        r@ == keep(m@.subrange(start as int, end as int), acc@.subrange(start as int, end as int), pinned_only),
{
    let mut r: Vec<MessageMeta> = Vec::new();
    let mut k: usize = start;
    while k < end
        invariant
            start <= k <= end,
            end <= m@.len(),
            acc@.len() == m@.len(),
            r@ == keep(m@.subrange(start as int, k as int), acc@.subrange(start as int, k as int), pinned_only),
        decreases end - k,
    {
        assert(m@.subrange(start as int, k + 1).drop_last() =~= m@.subrange(start as int, k as int));
        assert(acc@.subrange(start as int, k + 1).drop_last() =~= acc@.subrange(start as int, k as int));
        if acc[k] && (!pinned_only || m[k].pinned) {
            r.push(m[k]);
            assert(r@ =~= keep(m@.subrange(start as int, k as int), acc@.subrange(start as int, k as int), pinned_only) + seq![m@[k as int]]);
        } else {
            assert(r@ =~= keep(m@.subrange(start as int, k as int), acc@.subrange(start as int, k as int), pinned_only) + Seq::<MessageMeta>::empty());
        }
        k += 1;
    }
    r
}

/// The pages of a query over the date-ordered list `ms`, and their total.
pub fn message_pages(ms: &Vec<MessageMeta>, opts: &MessageOptions, accepted: &Vec<bool>) -> (r: Result<
    (Vec<MessagePage>, usize),
    Error,
>)
    requires
        accepted@.len() == ms@.len(),
    ensures
        match spec_pages(ms@, opts, accepted@) {
            Ok((pages, total)) => r is Ok && r->Ok_0.1 == total && r->Ok_0.0@.len() == pages.len() && forall|i: int|
                0 <= i < pages.len() ==> page_view(#[trigger] r->Ok_0.0@[i]) == pages[i],
            Err(e) => r == Err::<(Vec<MessagePage>, usize), Error>(e),
        },
{
    if ms.len() == 0 {
        return Ok((Vec::new(), 0));
    }
    let m = if opts.reverse { reversed(ms) } else { ms.clone() };
    let acc = if opts.reverse { reversed_bools(accepted) } else { accepted.clone() };
    let (page, size) = match opts.messages_type {
        MessagesType::Pages { page, amount_per_page } => (
            page,
            match amount_per_page {
                Some(a) => if a == 0 { 255usize } else { a },
                None => 255usize,
            },
        ),
        _ => (None, 255usize),
    };
    assert((page, size) == spec_page_params(opts.messages_type));
    let n = m.len();
    match page {
        Some(index) => {
            // the chosen page exists when its first position is within the list
            if index > (n - 1) / size {
                proof {
                    assert(index * size >= n) by (nonlinear_arith)
                        requires
                            index as int > (n as int - 1) / size as int,
                            size > 0,
                            n > 0,
                    ;
                }
                return Err(Error::PageNotFound);
            }
            proof {
                assert(index * size < n) by (nonlinear_arith)
                    requires
                        index as int <= (n as int - 1) / size as int,
                        size > 0,
                        n > 0,
                ;
            }
            let start = index * size;
            let end = if n - start > size { start + size } else { n };
            let messages = keep_exec(&m, &acc, start, end, false);
            let mut pages = Vec::new();
            pages.push(MessagePage { index, messages });
            Ok((pages, 1))
        },
        None => {
            let mut pages: Vec<MessagePage> = Vec::new();
            let mut start: usize = 0;
            let mut index: usize = 0;
            let ghost all = pages_from(m@, acc@, size as int, 0, 0, opts.pinned);
            while start < n
                invariant
                    n == m@.len(),
                    acc@.len() == n,
                    size > 0,
                    index <= start,
                    pages@.len() == index,
                    forall|i: int| 0 <= i < index ==> page_view(#[trigger] pages@[i]) == all[i],
                    all == pages_from(m@, acc@, size as int, 0, 0, opts.pinned),
                    pages_view_seq(pages@) + pages_from(m@, acc@, size as int, start as int, index as int, opts.pinned) == all,
                decreases n - start,
            {
                let end = if n - start > size { start + size } else { n };
                assert(pages_from(m@, acc@, size as int, end as int, index + 1, opts.pinned) == pages_from(
                    m@,
                    acc@,
                    size as int,
                    start + size,
                    index + 1,
                    opts.pinned,
                ));
                let messages = keep_exec(&m, &acc, start, end, opts.pinned);
                let ghost before = pages@;
                pages.push(MessagePage { index, messages });
                assert(pages_view_seq(pages@) =~= pages_view_seq(before).push(page_view(pages@[index as int])));
                assert(pages_view_seq(pages@) + pages_from(m@, acc@, size as int, end as int, index + 1, opts.pinned) =~= pages_view_seq(before) + pages_from(m@, acc@, size as int, start as int, index as int, opts.pinned));
                assert forall|i: int| 0 <= i < index + 1 implies page_view(#[trigger] pages@[i]) == all[i] by {
                    assert(pages_view_seq(pages@)[i] == page_view(pages@[i]));
                }
                start = end;
                index += 1;
            }
            assert(pages_from(m@, acc@, size as int, start as int, index as int, opts.pinned) =~= Seq::<(int, Seq<MessageMeta>)>::empty());
            assert(pages_view_seq(pages@) =~= all);
            let total = pages.len();
            Ok((pages, total))
        },
    }
}

pub open spec fn pages_view_seq(ps: Seq<MessagePage>) -> Seq<(int, Seq<MessageMeta>)> {
    Seq::new(ps.len(), |i: int| page_view(ps[i]))
}

/// The messages of the pages, one page after the other.
pub open spec fn flatten_pages(ps: Seq<(int, Seq<MessageMeta>)>) -> Seq<MessageMeta>
    decreases ps.len(),
{
    if ps.len() == 0 {
        Seq::empty()
    } else {
        ps[0].1 + flatten_pages(ps.drop_first())
    }
}

proof fn lemma_keep_concat(a: Seq<MessageMeta>, aa: Seq<bool>, b: Seq<MessageMeta>, ab: Seq<bool>, pinned_only: bool)
    requires
        a.len() == aa.len(),
        b.len() == ab.len(),
    ensures
        keep(a + b, aa + ab, pinned_only) == keep(a, aa, pinned_only) + keep(b, ab, pinned_only),
    decreases b.len(),
{
    if b.len() == 0 {
        assert(a + b =~= a);
        assert(aa + ab =~= aa);
        assert(keep(a, aa, pinned_only) + keep(b, ab, pinned_only) =~= keep(a, aa, pinned_only));
    } else {
        lemma_keep_concat(a, aa, b.drop_last(), ab.drop_last(), pinned_only);
        assert((a + b).drop_last() =~= a + b.drop_last());
        assert((aa + ab).drop_last() =~= aa + ab.drop_last());
        assert((a + b).last() == b.last());
        assert((aa + ab).last() == ab.last());
        let tail = if ab.last() && (!pinned_only || b.last().pinned) {
            seq![b.last()]
        } else {
            Seq::<MessageMeta>::empty()
        };
        assert(keep(a + b, aa + ab, pinned_only) == keep(a + b.drop_last(), aa + ab.drop_last(), pinned_only) + tail);
        assert(keep(b, ab, pinned_only) == keep(b.drop_last(), ab.drop_last(), pinned_only) + tail);
        assert((keep(a, aa, pinned_only) + keep(b.drop_last(), ab.drop_last(), pinned_only)) + tail =~= keep(
            a,
            aa,
            pinned_only,
        ) + (keep(b.drop_last(), ab.drop_last(), pinned_only) + tail));
    }
}

proof fn lemma_pages_from(m: Seq<MessageMeta>, acc: Seq<bool>, size: int, start: int, index: int, pinned_only: bool)
    requires
        size > 0,
        0 <= start <= m.len(),
        acc.len() == m.len(),
    ensures
        flatten_pages(pages_from(m, acc, size, start, index, pinned_only)) == keep(
            m.subrange(start, m.len() as int),
            acc.subrange(start, m.len() as int),
            pinned_only,
        ),
        forall|i: int|
            0 <= i < pages_from(m, acc, size, start, index, pinned_only).len() ==> (#[trigger] pages_from(
                m,
                acc,
                size,
                start,
                index,
                pinned_only,
            )[i]).0 == index + i,
    decreases m.len() - start,
{
    let ps = pages_from(m, acc, size, start, index, pinned_only);
    if start >= m.len() {
        assert(ps =~= Seq::<(int, Seq<MessageMeta>)>::empty());
        assert(m.subrange(start, m.len() as int) =~= Seq::<MessageMeta>::empty());
        assert(acc.subrange(start, m.len() as int) =~= Seq::<bool>::empty());
    } else {
        let end = if start + size < m.len() {
            start + size
        } else {
            m.len() as int
        };
        let rest = pages_from(m, acc, size, start + size, index + 1, pinned_only);
        assert(ps == seq![(index, keep(chunk(m, start, size), chunk(acc, start, size), pinned_only))] + rest);
        assert(ps.drop_first() =~= rest);
        if start + size < m.len() {
            lemma_pages_from(m, acc, size, start + size, index + 1, pinned_only);
            assert(m.subrange(start, m.len() as int) =~= m.subrange(start, end) + m.subrange(end, m.len() as int));
            assert(acc.subrange(start, m.len() as int) =~= acc.subrange(start, end) + acc.subrange(end, m.len() as int));
            lemma_keep_concat(
                m.subrange(start, end),
                acc.subrange(start, end),
                m.subrange(end, m.len() as int),
                acc.subrange(end, m.len() as int),
                pinned_only,
            );
        } else {
            assert(rest =~= Seq::<(int, Seq<MessageMeta>)>::empty());
            assert(flatten_pages(rest) =~= Seq::<MessageMeta>::empty());
            assert(flatten_pages(ps) =~= keep(chunk(m, start, size), chunk(acc, start, size), pinned_only));
        }
        assert forall|i: int| 0 <= i < ps.len() implies (#[trigger] ps[i]).0 == index + i by {
            if i > 0 {
                assert(ps[i] == rest[i - 1]);
            }
        }
    }
}

/// Without a page chosen, the pages hold the accepted messages of the query
/// (the pinned ones, when it asks so) in its order, each once, one page
/// after the other, numbered from 0; their total is their number.
pub proof fn law_pages_hold_the_accepted(ms: Seq<MessageMeta>, opts: &MessageOptions, accepted: Seq<bool>)
    requires
        accepted.len() == ms.len(),
        spec_page_params(opts.messages_type).0 is None,
    ensures
        spec_pages(ms, opts, accepted) matches Ok((pages, total)) && total == pages.len() && flatten_pages(pages)
            == keep(oriented(ms, opts.reverse), oriented(accepted, opts.reverse), opts.pinned) && forall|i: int|
            0 <= i < pages.len() ==> (#[trigger] pages[i]).0 == i,
{
    let m = oriented(ms, opts.reverse);
    let acc = oriented(accepted, opts.reverse);
    let size = spec_page_params(opts.messages_type).1;
    if m.len() == 0 {
        assert(keep(m, acc, opts.pinned) =~= Seq::<MessageMeta>::empty());
        assert(flatten_pages(Seq::<(int, Seq<MessageMeta>)>::empty()) =~= Seq::<MessageMeta>::empty());
    } else {
        lemma_pages_from(m, acc, size as int, 0, 0, opts.pinned);
        assert(m.subrange(0, m.len() as int) =~= m);
        assert(acc.subrange(0, m.len() as int) =~= acc);
    }
}

/// The messages from position `i` on that pass the range, date and pinned
/// filters and are accepted, in order, without any limit.
pub open spec fn eligible_from(ms: Seq<MessageMeta>, opts: &MessageOptions, accepted: Seq<bool>, i: int) -> Seq<
    MessageMeta,
>
    decreases ms.len() - i,
{
    if i < 0 || i >= ms.len() {
        Seq::empty()
    } else if passes(opts, i, ms[i]) && accepted[i] {
        seq![ms[i]] + eligible_from(ms, opts, accepted, i + 1)
    } else {
        eligible_from(ms, opts, accepted, i + 1)
    }
}

proof fn lemma_select_takes_eligible(
    ms: Seq<MessageMeta>,
    opts: &MessageOptions,
    accepted: Seq<bool>,
    i: int,
    remaining: Option<nat>,
)
    requires
        0 <= i <= ms.len(),
    ensures
        remaining is None ==> select_from(ms, opts, accepted, i, remaining) == eligible_from(ms, opts, accepted, i),
        remaining matches Some(n) ==> select_from(ms, opts, accepted, i, remaining) == eligible_from(
            ms,
            opts,
            accepted,
            i,
        ).take(if n < eligible_from(ms, opts, accepted, i).len() { n as int } else {
            eligible_from(ms, opts, accepted, i).len() as int
        }),
    decreases ms.len() - i,
{
    let e = eligible_from(ms, opts, accepted, i);
    if i < ms.len() {
        let next = match remaining {
            Some(r) => Some((r - 1) as nat),
            None => None,
        };
        lemma_select_takes_eligible(ms, opts, accepted, i + 1, remaining);
        lemma_select_takes_eligible(ms, opts, accepted, i + 1, next);
        let e1 = eligible_from(ms, opts, accepted, i + 1);
        if remaining == Some(0nat) {
            assert(e.take(0) =~= Seq::<MessageMeta>::empty());
        } else if passes(opts, i, ms[i]) && accepted[i] {
            assert(e == seq![ms[i]] + e1);
            if let Some(n) = remaining {
                let k = if n - 1 < e1.len() { (n - 1) as int } else { e1.len() as int };
                assert(e.take(k + 1) =~= seq![ms[i]] + e1.take(k));
            }
        }
    } else {
        assert(e.take(0) =~= Seq::<MessageMeta>::empty());
    }
}

/// A query that asks for neither the first nor the last message yields the
/// messages, in its order, that pass the range, date and pinned filters and
/// are accepted, and no more than its limit of them: the first `n` of them
/// with a limit `n`, all of them without one. A message left out by a filter
/// never counts against the limit.
pub proof fn law_limit_counts_only_what_passes(ms: Seq<MessageMeta>, opts: &MessageOptions, accepted: Seq<bool>)
    requires
        accepted.len() == ms.len(),
        !opts.first_message,
        !opts.last_message,
    ensures
        ({
            let e = eligible_from(oriented(ms, opts.reverse), opts, oriented(accepted, opts.reverse), 0);
            &&& opts.limit is None ==> spec_select(ms, opts, accepted) == e
            &&& opts.limit matches Some(n) ==> spec_select(ms, opts, accepted) == e.take(
                if (n as int) < e.len() { n as int } else { e.len() as int },
            )
            &&& opts.limit matches Some(n) ==> spec_select(ms, opts, accepted).len() == if (n as int) < e.len() {
                n as int
            } else {
                e.len() as int
            }
        }),
{
    let m = oriented(ms, opts.reverse);
    let a = oriented(accepted, opts.reverse);
    lemma_select_takes_eligible(m, opts, a, 0, limit_nat(opts.limit));
    if m.len() == 0 {
        assert(eligible_from(m, opts, a, 0) =~= Seq::<MessageMeta>::empty());
        let e = eligible_from(m, opts, a, 0);
        assert(e.take(0) =~= Seq::<MessageMeta>::empty());
    }
}

proof fn lemma_eligible_pass(ms: Seq<MessageMeta>, opts: &MessageOptions, accepted: Seq<bool>, i: int)
    requires
        0 <= i <= ms.len(),
    ensures
        forall|k: int|
            0 <= k < eligible_from(ms, opts, accepted, i).len() ==> exists|j: int|
                i <= j < ms.len() && passes(opts, j, ms[j]) && accepted[j] && #[trigger] eligible_from(
                    ms,
                    opts,
                    accepted,
                    i,
                )[k] == ms[j],
    decreases ms.len() - i,
{
    if i < ms.len() {
        lemma_eligible_pass(ms, opts, accepted, i + 1);
        let e = eligible_from(ms, opts, accepted, i);
        let e1 = eligible_from(ms, opts, accepted, i + 1);
        assert forall|k: int| 0 <= k < e.len() implies exists|j: int|
            i <= j < ms.len() && passes(opts, j, ms[j]) && accepted[j] && #[trigger] e[k] == ms[j] by {
            if passes(opts, i, ms[i]) && accepted[i] {
                if k == 0 {
                    assert(e[0] == ms[i]);
                } else {
                    assert(e[k] == e1[k - 1]);
                }
            } else {
                assert(e[k] == e1[k]);
            }
        }
    }
}

/// Every message a query yields (one that asks for neither the first nor
/// the last message) is pinned when the query asks for pinned ones, and
/// dated within the query's date range when it has one.
pub proof fn law_yielded_messages_pass_the_filters(
    ms: Seq<MessageMeta>,
    opts: &MessageOptions,
    accepted: Seq<bool>,
)
    requires
        accepted.len() == ms.len(),
        !opts.first_message,
        !opts.last_message,
    ensures
        forall|k: int|
            0 <= k < spec_select(ms, opts, accepted).len() ==> {
                let m = #[trigger] spec_select(ms, opts, accepted)[k];
                &&& opts.pinned ==> m.pinned
                &&& opts.date_range matches Some(d) ==> d.0 <= m.date && m.date <= d.1
            },
{
    let mo = oriented(ms, opts.reverse);
    let a = oriented(accepted, opts.reverse);
    law_limit_counts_only_what_passes(ms, opts, accepted);
    lemma_eligible_pass(mo, opts, a, 0);
    let e = eligible_from(mo, opts, a, 0);
    let r = spec_select(ms, opts, accepted);
    assert forall|k: int| 0 <= k < r.len() implies {
        let m = #[trigger] r[k];
        &&& opts.pinned ==> m.pinned
        &&& opts.date_range matches Some(d) ==> d.0 <= m.date && m.date <= d.1
    } by {
        assert(r[k] == e[k]);
        let j = choose|j: int| 0 <= j < mo.len() && passes(opts, j, mo[j]) && a[j] && #[trigger] e[k] == mo[j];
    }
}

} // verus!
