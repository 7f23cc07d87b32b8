//! What the bar charts are drawn from: scale ceilings, labels, file names
//! and the side-by-side layout of a combined image.
use vstd::prelude::*;
use vstd::string::*;
use crate::tally::Tallies;

verus! {

/// `m` is the largest element of `s`, or 0 when `s` is empty.
pub open spec fn is_max_of(s: Seq<usize>, m: usize) -> bool {
    &&& forall|i: int| 0 <= i < s.len() ==> s[i] <= m
    &&& (s.len() == 0 ==> m == 0)
    &&& (s.len() > 0 ==> exists|i: int| 0 <= i < s.len() && s[i] == m)
}

/// `m` is the largest count in any row of `rows`, or 0 when there is none.
pub open spec fn is_max_of_all(rows: Seq<Seq<usize>>, m: usize) -> bool {
    &&& forall|k: int, i: int| 0 <= k < rows.len() && 0 <= i < rows[k].len() ==> rows[k][i] <= m
    &&& (m == 0 || exists|k: int, i: int| 0 <= k < rows.len() && 0 <= i < rows[k].len() && rows[k][i] == m)
}

/// The largest count, or 0 for no counts.
pub fn max_count(counts: &Vec<usize>) -> (r: usize)
    ensures
        is_max_of(counts@, r),
{
    let mut m: usize = 0;
    let mut i: usize = 0;
    while i < counts.len()
        invariant
            i <= counts@.len(),
            forall|j: int| 0 <= j < i ==> counts@[j] <= m,
            i == 0 ==> m == 0,
            i > 0 ==> exists|j: int| 0 <= j < i && counts@[j] == m,
        decreases counts@.len() - i,
    {
        if i == 0 || counts[i] > m {
            m = counts[i];
        }
        i = i + 1;
    }
    m
}

/// The top of a chart's count axis: the shared ceiling when there is one,
/// else the chart's own largest count.
pub fn chart_ceiling(counts: &Vec<usize>, shared: Option<usize>) -> (r: usize)
    ensures
        shared matches Some(s) ==> r == s,
        shared is None ==> is_max_of(counts@, r),
{
    match shared {
        Some(s) => s,
        None => max_count(counts),
    }
}

/// The hour counts of every sender.
pub open spec fn hour_rows(t: Tallies) -> Seq<Seq<usize>> {
    t.senders@.map_values(|s: crate::tally::SenderTally| s.hours@)
}

/// The weekday counts of every sender.
pub open spec fn weekday_rows(t: Tallies) -> Seq<Seq<usize>> {
    t.senders@.map_values(|s: crate::tally::SenderTally| s.weekdays@)
}

/// The ceilings shared by all hour charts and by all weekday charts when
/// the charts go into one image: the largest count over every sender.
/// Without one image each chart keeps its own scale (`None`).
pub fn find_max(one_image: bool, tallies: &Tallies) -> (r: (Option<usize>, Option<usize>))
    ensures
        !one_image ==> r.0 is None && r.1 is None,
        one_image ==> (r.0 matches Some(m) && is_max_of_all(hour_rows(*tallies), m)),
        one_image ==> (r.1 matches Some(m) && is_max_of_all(weekday_rows(*tallies), m)),
{
    if !one_image {
        return (None, None);
    }
    let ghost hr = hour_rows(*tallies);
    let ghost wr = weekday_rows(*tallies);
    let mut max_hour: usize = 0;
    let mut max_day: usize = 0;
    let mut k: usize = 0;
    while k < tallies.senders.len()
        invariant
            k <= tallies.senders@.len(),
            hr == hour_rows(*tallies),
            wr == weekday_rows(*tallies),
            hr.len() == tallies.senders@.len(),
            wr.len() == tallies.senders@.len(),
            is_max_of_all(hr.take(k as int), max_hour),
            is_max_of_all(wr.take(k as int), max_day),
        decreases tallies.senders@.len() - k,
    {
        let mh = max_count(&tallies.senders[k].hours);
        let md = max_count(&tallies.senders[k].weekdays);
        proof {
            assert(hr[k as int] == tallies.senders@[k as int].hours@);
            assert(wr[k as int] == tallies.senders@[k as int].weekdays@);
            assert forall|j: int| 0 <= j < k implies hr.take(k as int + 1)[j] == hr.take(k as int)[j]
                && wr.take(k as int + 1)[j] == wr.take(k as int)[j] by {}
        }
        if mh > max_hour {
            max_hour = mh;
        }
        if md > max_day {
            max_day = md;
        }
        proof {
            let h1 = hr.take(k as int + 1);
            let w1 = wr.take(k as int + 1);
            assert(h1[k as int] == hr[k as int]);
            assert(w1[k as int] == wr[k as int]);
            if max_hour != 0 {
                if max_hour == mh {
                    let i = choose|i: int| 0 <= i < hr[k as int].len() && hr[k as int][i] == mh;
                    assert(h1[k as int][i] == max_hour);
                } else {
                    let (kk, i) = choose|kk: int, i: int| 0 <= kk < k && 0 <= i < hr.take(k as int)[kk].len()
                        && hr.take(k as int)[kk][i] == max_hour;
                    assert(h1[kk][i] == max_hour);
                }
            }
            if max_day != 0 {
                if max_day == md {
                    let i = choose|i: int| 0 <= i < wr[k as int].len() && wr[k as int][i] == md;
                    assert(w1[k as int][i] == max_day);
                } else {
                    let (kk, i) = choose|kk: int, i: int| 0 <= kk < k && 0 <= i < wr.take(k as int)[kk].len()
                        && wr.take(k as int)[kk][i] == max_day;
                    assert(w1[kk][i] == max_day);
                }
            }
        }
        k = k + 1;
    }
    assert(hr.take(k as int) =~= hr);
    assert(wr.take(k as int) =~= wr);
    (Some(max_hour), Some(max_day))
}

/// The short English name of weekday `i` (0 is Monday); empty past Sunday.
pub fn weekday_label(i: usize) -> (r: String)
    ensures
        r@ == (if i == 0 { "Mon"@ } else if i == 1 { "Tue"@ } else if i == 2 { "Wed"@ }
            else if i == 3 { "Thu"@ } else if i == 4 { "Fri"@ } else if i == 5 { "Sat"@ }
            else if i == 6 { "Sun"@ } else { ""@ }),
{
    let s = if i == 0 { "Mon" } else if i == 1 { "Tue" } else if i == 2 { "Wed" }
        else if i == 3 { "Thu" } else if i == 4 { "Fri" } else if i == 5 { "Sat" }
        else if i == 6 { "Sun" } else { "" };
    String::from_str(s)
}

/// The file of a sender's hour chart: `<name>-by-hour.png`.
pub fn hour_chart_file(name: &str) -> (r: String)
    ensures
        r@ == name@ + "-by-hour.png"@,
{
    let mut r = String::from_str(name);
    r.append("-by-hour.png");
    r
}

/// The file of a sender's weekday chart: `<name>-by-weekday.png`.
pub fn weekday_chart_file(name: &str) -> (r: String)
    ensures
        r@ == name@ + "-by-weekday.png"@,
{
    let mut r = String::from_str(name);
    r.append("-by-weekday.png");
    r
}

/// Blank pixels between two charts of a combined image.
pub const PADDING: u32 = 10;

/// The layout of `count` charts of width `width` side by side: the combined
/// width `(width + PADDING) * count + PADDING` and the left edge of each
/// chart, `i * (width + PADDING)`; `None` when `width + PADDING` or the
/// combined width does not fit in `u32`.
pub fn merge_layout(width: u32, count: usize) -> (r: Option<(u32, Vec<u32>)>)
    ensures
        r matches Some((total, offsets)) ==> total == (width + PADDING) * count + PADDING
            && offsets@.len() == count
            && forall|i: int| 0 <= i < count ==> offsets@[i] == i * (width + PADDING),
        r is None ==> width + PADDING > u32::MAX || (width + PADDING) * count + PADDING > u32::MAX,
{
    if width > u32::MAX - PADDING {
        return None;
    }
    let step: u32 = width + PADDING;
    let mut offsets: Vec<u32> = Vec::new();
    let mut x: u32 = 0;
    let mut i: usize = 0;
    while i < count
        invariant
            step == width + PADDING,
            step >= 1,
            i <= count,
            x == i * step,
            x <= u32::MAX,
            offsets@.len() == i,
            forall|j: int| 0 <= j < i ==> offsets@[j] == j * step,
        decreases count - i,
    {
        offsets.push(x);
        if x > u32::MAX - step {
            proof {
                assert((i + 1) * step > u32::MAX) by (nonlinear_arith)
                    requires x == i * step, x + step > u32::MAX;
                assert(count * step + PADDING > u32::MAX) by (nonlinear_arith)
                    requires (i + 1) * step > u32::MAX, i + 1 <= count, step >= 1;
            }
            return None;
        }
        proof {
            assert(x + step == (i + 1) * step) by (nonlinear_arith)
                requires x == i * step;
        }
        x = x + step;
        i = i + 1;
    }
    if x > u32::MAX - PADDING {
        return None;
    }
    Some((x + PADDING, offsets))
}

} // verus!
