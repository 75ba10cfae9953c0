//! The labour market: employers with a fixed number of posts, and the
//! greedy assignment of job seekers to the nearest employer with a vacancy.
//!
//! Distances are measured by the caller; the assignment receives, for each
//! job seeker, the employers within commuting range from nearest to
//! farthest.

use vstd::prelude::*;
use crate::ecs::BuildingType;

verus! {

/// Ticks a worker may look for a job before possibly leaving the city.
pub const MAX_JOB_SEARCH_TICKS: u32 = 200;
/// Ticks an employer may go without any worker before it closes.
pub const MAX_UNSTAFFED_TICKS: u32 = 400;

/// What a resident does for a living.
#[derive(Copy, Clone, Debug, PartialEq, Eq, Structural)]
pub enum EmploymentStatus {
    Employed,
    Unemployed,
    Student,
    Retired,
}

/// Posts of an employer.
#[derive(Copy, Clone, Debug, PartialEq, Eq, Structural)]
pub struct Employer {
    pub max_workers: u32,
    pub current_workers: u32,
    pub unstaffed_ticks: u32,
}

/// Posts offered by buildings of kind `b`: factories 10, shops 3, offices 8,
/// farms 5; other buildings employ nobody.
pub open spec fn posts_of(b: BuildingType) -> Option<u32> {
    match b {
        BuildingType::Factory => Some(10u32),
        BuildingType::Shop => Some(3u32),
        BuildingType::Office => Some(8u32),
        BuildingType::Farm => Some(5u32),
        _ => None,
    }
}

/// Posts offered by buildings of kind `b`, if they employ anyone.
pub fn employer_posts(b: BuildingType) -> (r: Option<u32>)
    ensures
        r == posts_of(b),
{
    match b {
        BuildingType::Factory => Some(10),
        BuildingType::Shop => Some(3),
        BuildingType::Office => Some(8),
        BuildingType::Farm => Some(5),
        _ => None,
    }
}

/// Homes of workers: houses and apartments.
pub fn houses_workers(b: BuildingType) -> (r: bool)
    ensures
        r == (b == BuildingType::House || b == BuildingType::Apartment),
{
    match b {
        BuildingType::House | BuildingType::Apartment => true,
        _ => false,
    }
}

/// Vacant posts of an employer (none when over-staffed).
pub open spec fn vacancies_of(e: Employer) -> int {
    if e.current_workers < e.max_workers { e.max_workers - e.current_workers } else { 0 }
}

/// Vacant posts of the first `n` employers.
pub open spec fn total_vacancies(es: Seq<Employer>, n: int) -> int
    decreases n,
{
    if n <= 0 {
        0
    } else {
        total_vacancies(es, n - 1) + vacancies_of(es[n - 1])
    }
}

impl Employer {
    /// An employer with `max_workers` posts, none filled.
    pub fn new(max_workers: u32) -> (r: Employer)
        ensures
            r == (Employer { max_workers, current_workers: 0, unstaffed_ticks: 0 }),
    {
        Employer { max_workers, current_workers: 0, unstaffed_ticks: 0 }
    }

    /// Some post is vacant.
    pub fn needs_workers(&self) -> (r: bool)
        ensures
            r == (self.current_workers < self.max_workers),
    {
        self.current_workers < self.max_workers
    }

    /// Number of vacant posts.
    pub fn vacancies(&self) -> (r: u32)
        ensures
            r == vacancies_of(*self),
    {
        if self.current_workers < self.max_workers {
            self.max_workers - self.current_workers
        } else {
            0
        }
    }

    /// One tick of an employer with posts: without any worker it counts the
    /// tick and the result says whether it has now gone unstaffed for more
    /// than `MAX_UNSTAFFED_TICKS`; with workers the count restarts. An
    /// employer without posts is left alone.
    pub fn tick_unstaffed(&mut self) -> (closes: bool)
        requires
            old(self).max_workers > 0 && old(self).current_workers == 0 ==> old(self).unstaffed_ticks < u32::MAX,
        ensures
            old(self).max_workers == 0 ==> *final(self) == *old(self) && !closes,
            old(self).max_workers > 0 && old(self).current_workers == 0 ==> {
                &&& *final(self) == (Employer { unstaffed_ticks: (old(self).unstaffed_ticks + 1) as u32, ..*old(self) })
                &&& closes == (final(self).unstaffed_ticks > MAX_UNSTAFFED_TICKS)
            },
            old(self).max_workers > 0 && old(self).current_workers > 0 ==> {
                &&& *final(self) == (Employer { unstaffed_ticks: 0, ..*old(self) })
                &&& !closes
            },
    {
        if self.max_workers == 0 {
            return false;
        }
        if self.current_workers == 0 {
            self.unstaffed_ticks = self.unstaffed_ticks + 1;
            self.unstaffed_ticks > MAX_UNSTAFFED_TICKS
        } else {
            self.unstaffed_ticks = 0;
            false
        }
    }
}

/// Total of the vacant posts of all employers.
pub fn count_job_openings(employers: &[Employer]) -> (r: u32)
    requires
        total_vacancies(employers@, employers@.len() as int) <= u32::MAX,
    ensures
        r == total_vacancies(employers@, employers@.len() as int),
{
    let mut total: u32 = 0;
    let mut i: usize = 0;
    while i < employers.len()
        invariant
            0 <= i <= employers@.len(),
            total == total_vacancies(employers@, i as int),
            total_vacancies(employers@, employers@.len() as int) <= u32::MAX,
        decreases employers@.len() - i,
    {
        proof {
            lemma_total_vacancies_mono(employers@, i as int + 1, employers@.len() as int);
        }
        total = total + employers[i].vacancies();
        i = i + 1;
    }
    total
}

proof fn lemma_total_vacancies_mono(es: Seq<Employer>, a: int, b: int)
    requires
        0 <= a <= b,
    ensures
        total_vacancies(es, a) <= total_vacancies(es, b),
    decreases b - a,
{
    if a < b {
        lemma_total_vacancies_mono(es, a, b - 1);
    }
}

/// One tick of a job seeker: the search lasts one tick longer, and the
/// result says whether it has now lasted more than `MAX_JOB_SEARCH_TICKS`
/// (the seeker may then leave the city).
pub fn tick_job_search(unemployment_ticks: &mut u32) -> (long_term: bool)
    requires
        *old(unemployment_ticks) < u32::MAX,
    ensures
        *final(unemployment_ticks) == *old(unemployment_ticks) + 1,
        long_term == (*final(unemployment_ticks) > MAX_JOB_SEARCH_TICKS),
{
    *unemployment_ticks = *unemployment_ticks + 1;
    *unemployment_ticks > MAX_JOB_SEARCH_TICKS
}

// ---------------------------------------------------------------------------
// Job matching
// ---------------------------------------------------------------------------

/// First employer of `list`, from position `j` on, that exists and still has
/// a vacant post in `rem`.
pub open spec fn first_open(rem: Seq<u32>, list: Seq<usize>, j: int) -> Option<usize>
    decreases list.len() - j,
{
    if j < 0 || j >= list.len() {
        None
    } else if list[j] < rem.len() && rem[list[j] as int] > 0 {
        Some(list[j])
    } else {
        first_open(rem, list, j + 1)
    }
}

/// Vacancies left and placements `(seeker, employer)` after the first `n`
/// seekers have been served in order, each by the first employer of its list
/// with a vacancy left.
pub open spec fn assignment(vac: Seq<u32>, cands: Seq<Seq<usize>>, n: nat) -> (Seq<u32>, Seq<(usize, usize)>)
    decreases n,
{
    if n == 0 {
        (vac, seq![])
    } else {
        let prev = assignment(vac, cands, (n - 1) as nat);
        match first_open(prev.0, cands[n - 1], 0) {
            Some(e) => (prev.0.update(e as int, (prev.0[e as int] - 1) as u32), prev.1.push(((n - 1) as usize, e))),
            None => prev,
        }
    }
}

/// Number of placements with employer `e`.
pub open spec fn placed_with(pl: Seq<(usize, usize)>, e: int) -> int
    decreases pl.len(),
{
    if pl.len() == 0 {
        0
    } else {
        placed_with(pl.drop_last(), e) + (if pl.last().1 == e { 1int } else { 0int })
    }
}

proof fn lemma_first_open_some(rem: Seq<u32>, list: Seq<usize>, j: int)
    requires
        first_open(rem, list, j) is Some,
    ensures
        first_open(rem, list, j)->0 < rem.len(),
        rem[first_open(rem, list, j)->0 as int] > 0,
        list.contains(first_open(rem, list, j)->0),
    decreases list.len() - j,
{
    if j < 0 || j >= list.len() {
    } else if list[j] < rem.len() && rem[list[j] as int] > 0 {
        assert(list[j] == first_open(rem, list, j)->0);
    } else {
        lemma_first_open_some(rem, list, j + 1);
    }
}

/// Vacant posts of the first `n` employers of `vac`.
pub open spec fn vacancy_sum(vac: Seq<u32>, n: int) -> int
    decreases n,
{
    if n <= 0 {
        0
    } else {
        vacancy_sum(vac, n - 1) + vac[n - 1]
    }
}

proof fn lemma_vacancy_sum_update(s: Seq<u32>, e: int, x: u32, n: int)
    requires
        0 <= e < n <= s.len(),
    ensures
        vacancy_sum(s.update(e, x), n) == vacancy_sum(s, n) - s[e] + x,
    decreases n,
{
    if n - 1 > e {
        lemma_vacancy_sum_update(s, e, x, n - 1);
    } else {
        lemma_vacancy_sum_prefix(s, s.update(e, x), n - 1);
    }
}

proof fn lemma_vacancy_sum_prefix(a: Seq<u32>, b: Seq<u32>, n: int)
    requires
        n <= a.len(),
        n <= b.len(),
        forall|k: int| 0 <= k < n ==> a[k] == b[k],
    ensures
        vacancy_sum(a, n) == vacancy_sum(b, n),
    decreases n,
{
    if n > 0 {
        lemma_vacancy_sum_prefix(a, b, n - 1);
    }
}

proof fn lemma_vacancy_sum_nonneg(s: Seq<u32>, n: int)
    ensures
        vacancy_sum(s, n) >= 0,
    decreases n,
{
    if n > 0 {
        lemma_vacancy_sum_nonneg(s, n - 1);
    }
}

/// The matching places each job seeker at most once (placements come in
/// increasing order of seeker), always with an existing employer of the
/// seeker's own candidate list, and fills exactly as many posts as it
/// places seekers: so it places no more seekers than there were, nor more
/// than there were vacant posts.
pub proof fn lemma_matching_bounds(vac: Seq<u32>, cands: Seq<Seq<usize>>, n: nat)
    requires
        n <= cands.len(),
        cands.len() <= usize::MAX,
    ensures
        ({
            let a = assignment(vac, cands, n);
            &&& a.0.len() == vac.len()
            &&& forall|k: int| 0 <= k < a.1.len() ==> {
                &&& (#[trigger] a.1[k]).0 < n
                &&& a.1[k].1 < vac.len()
                &&& cands[a.1[k].0 as int].contains(a.1[k].1)
            }
            &&& forall|j: int, k: int| 0 <= j < k < a.1.len() ==> (#[trigger] a.1[j]).0 < (#[trigger] a.1[k]).0
            &&& vacancy_sum(a.0, vac.len() as int) + a.1.len() == vacancy_sum(vac, vac.len() as int)
            &&& a.1.len() <= n
            &&& a.1.len() <= vacancy_sum(vac, vac.len() as int)
            &&& forall|e: int| 0 <= e < vac.len() ==> #[trigger] placed_with(a.1, e) <= vac[e]
        }),
    decreases n,
{
    lemma_assignment_conserves(vac, cands, n);
    let fin = assignment(vac, cands, n);
    assert forall|e: int| 0 <= e < vac.len() implies #[trigger] placed_with(fin.1, e) <= vac[e] by {
        assert(fin.0[e] + placed_with(fin.1, e) == vac[e]);
    }
    if n > 0 {
        lemma_matching_bounds(vac, cands, (n - 1) as nat);
        let prev = assignment(vac, cands, (n - 1) as nat);
        let a = assignment(vac, cands, n);
        match first_open(prev.0, cands[n - 1], 0) {
            Some(e) => {
                lemma_first_open_some(prev.0, cands[n - 1], 0);
                lemma_vacancy_sum_update(prev.0, e as int, (prev.0[e as int] - 1) as u32, vac.len() as int);
                assert(a.1 == prev.1.push(((n - 1) as usize, e)));
                assert(a.1[prev.1.len() as int] == ((n - 1) as usize, e));
                assert(((n - 1) as usize) as int == n - 1);
                assert forall|k: int| 0 <= k < a.1.len() implies {
                    &&& (#[trigger] a.1[k]).0 < n
                    &&& a.1[k].1 < vac.len()
                    &&& cands[a.1[k].0 as int].contains(a.1[k].1)
                } by {
                    if k < prev.1.len() {
                        assert(a.1[k] == prev.1[k]);
                    }
                }
                assert forall|j: int, k: int| 0 <= j < k < a.1.len() implies (#[trigger] a.1[j]).0 < (#[trigger] a.1[k]).0 by {
                    assert(a.1[j] == prev.1[j]);
                    if k < prev.1.len() {
                        assert(a.1[k] == prev.1[k]);
                    }
                }
            },
            None => {},
        }
        lemma_vacancy_sum_nonneg(a.0, vac.len() as int);
    } else {
        lemma_vacancy_sum_nonneg(vac, vac.len() as int);
    }
}

/// The matching never fills more posts than were vacant: for every
/// employer, the posts filled plus those left vacant are the posts that were
/// vacant, and nothing changes in length.
pub proof fn lemma_assignment_conserves(vac: Seq<u32>, cands: Seq<Seq<usize>>, n: nat)
    requires
        n <= cands.len(),
    ensures
        assignment(vac, cands, n).0.len() == vac.len(),
        assignment(vac, cands, n).1.len() <= n,
        forall|e: int| 0 <= e < vac.len() ==> #[trigger] assignment(vac, cands, n).0[e] + placed_with(
            assignment(vac, cands, n).1,
            e,
        ) == vac[e],
    decreases n,
{
    if n > 0 {
        lemma_assignment_conserves(vac, cands, (n - 1) as nat);
        let prev = assignment(vac, cands, (n - 1) as nat);
        match first_open(prev.0, cands[n - 1], 0) {
            Some(e) => {
                lemma_first_open_some(prev.0, cands[n - 1], 0);
                let pl = prev.1.push(((n - 1) as usize, e));
                assert(pl.drop_last() =~= prev.1);
                assert forall|f: int| 0 <= f < vac.len() implies #[trigger] assignment(vac, cands, n).0[f] + placed_with(
                    assignment(vac, cands, n).1,
                    f,
                ) == vac[f] by {
                    assert(prev.0[f] + placed_with(prev.1, f) == vac[f]);
                }
            },
            None => {},
        }
    }
}

/// First employer of `list` with a vacancy left in `rem`.
fn find_first_open(rem: &Vec<u32>, list: &Vec<usize>) -> (r: Option<usize>)
    ensures
        r == first_open(rem@, list@, 0),
{
    let mut k: usize = 0;
    while k < list.len()
        invariant
            0 <= k <= list@.len(),
            first_open(rem@, list@, 0) == first_open(rem@, list@, k as int),
        decreases list@.len() - k,
    {
        let e = list[k];
        if e < rem.len() && rem[e] > 0 {
            return Some(e);
        }
        k = k + 1;
    }
    None
}

/// Serves the job seekers in order: seeker `u` takes the first employer of
/// `candidates[u]` (its employers within commuting range, nearest first)
/// that still has a vacancy, which then has one fewer. Returns the
/// placements `(seeker, employer)` in order, and the vacancies left.
pub fn match_workers_to_jobs(vacancies: &Vec<u32>, candidates: &Vec<Vec<usize>>) -> (r: (Vec<(usize, usize)>, Vec<u32>))
    ensures
        r.0@ == assignment(vacancies@, candidates@.map_values(|l: Vec<usize>| l@), candidates@.len()).1,
        r.1@ == assignment(vacancies@, candidates@.map_values(|l: Vec<usize>| l@), candidates@.len()).0,
        r.0@.len() <= candidates@.len(),
        r.0@.len() <= vacancy_sum(vacancies@, vacancies@.len() as int),
        forall|k: int| 0 <= k < r.0@.len() ==> (#[trigger] r.0@[k]).0 < candidates@.len()
            && r.0@[k].1 < vacancies@.len() && candidates@[r.0@[k].0 as int]@.contains(r.0@[k].1),
{
    let ghost cands = candidates@.map_values(|l: Vec<usize>| l@);
    let mut rem: Vec<u32> = Vec::new();
    let mut i: usize = 0;
    while i < vacancies.len()
        invariant
            0 <= i <= vacancies@.len(),
            rem@ == vacancies@.take(i as int),
        decreases vacancies@.len() - i,
    {
        rem.push(vacancies[i]);
        i = i + 1;
        assert(rem@ =~= vacancies@.take(i as int));
    }
    assert(rem@ =~= vacancies@);
    let mut placements: Vec<(usize, usize)> = Vec::new();
    let mut u: usize = 0;
    while u < candidates.len()
        invariant
            0 <= u <= candidates@.len(),
            cands == candidates@.map_values(|l: Vec<usize>| l@),
            (rem@, placements@) == assignment(vacancies@, cands, u as nat),
        decreases candidates@.len() - u,
    {
        let ghost prev = assignment(vacancies@, cands, u as nat);
        assert(cands[u as int] == candidates@[u as int]@);
        match find_first_open(&rem, &candidates[u]) {
            Some(e) => {
                proof {
                    lemma_first_open_some(rem@, candidates@[u as int]@, 0);
                }
                let left = rem[e] - 1;
                rem.set(e, left);
                placements.push((u, e));
            },
            None => {},
        }
        u = u + 1;
    }
    proof {
        lemma_matching_bounds(vacancies@, cands, candidates@.len());
        assert forall|k: int| 0 <= k < placements@.len() implies
            candidates@[(#[trigger] placements@[k]).0 as int]@.contains(placements@[k].1) by {
            assert(cands[placements@[k].0 as int] == candidates@[placements@[k].0 as int]@);
        }
    }
    (placements, rem)
}

// ---------------------------------------------------------------------------
// Residents and the tick of the market
// ---------------------------------------------------------------------------

/// Residents given a worker when the market opens.
pub const INITIAL_WORKERS: usize = 50;

/// A resident of working age: what it does, the employer it works for (an
/// index into the employers) and how long it has been looking for a job.
#[derive(Copy, Clone, Debug, PartialEq, Eq, Structural)]
pub struct Worker {
    pub status: EmploymentStatus,
    pub workplace: Option<usize>,
    pub unemployment_ticks: u32,
}

/// A resident who has just started looking for work.
pub open spec fn job_seeker() -> Worker {
    Worker { status: EmploymentStatus::Unemployed, workplace: None, unemployment_ticks: 0 }
}

impl Worker {
    /// A resident looking for work, from this tick on.
    pub fn new() -> (r: Worker)
        ensures
            r == job_seeker(),
    {
        Worker { status: EmploymentStatus::Unemployed, workplace: None, unemployment_ticks: 0 }
    }

    /// A resident working for employer `workplace`.
    pub fn employed(workplace: usize) -> (r: Worker)
        ensures
            r == (Worker { status: EmploymentStatus::Employed, workplace: Some(workplace), unemployment_ticks: 0 }),
    {
        Worker { status: EmploymentStatus::Employed, workplace: Some(workplace), unemployment_ticks: 0 }
    }
}

/// Employers of the first `n` buildings, each with the index of its
/// building, in building order.
pub open spec fn employer_sites(bs: Seq<BuildingType>, n: int) -> Seq<(usize, Employer)>
    decreases n,
{
    if n <= 0 {
        seq![]
    } else {
        let prev = employer_sites(bs, n - 1);
        match posts_of(bs[n - 1]) {
            Some(m) => prev.push(((n - 1) as usize, Employer { max_workers: m, current_workers: 0, unstaffed_ticks: 0 })),
            None => prev,
        }
    }
}

/// Posts each kind of building offers: a factory 10, a shop 3, an office 8,
/// a farm 5; houses, apartments, hospitals, schools and police stations
/// employ nobody in the market.
pub open spec fn posts_by_kind(b: BuildingType) -> int {
    match b {
        BuildingType::Factory => 10,
        BuildingType::Shop => 3,
        BuildingType::Office => 8,
        BuildingType::Farm => 5,
        _ => 0,
    }
}

/// Opening the market on the first `n` buildings gives every factory, shop,
/// office and farm exactly one employer, with 10, 3, 8 and 5 posts, none of
/// them filled, and every other building none; the employers come in
/// building order.
pub proof fn lemma_market_opens_one_employer_per_workplace(bs: Seq<BuildingType>, n: int)
    requires
        0 <= n <= bs.len(),
        bs.len() <= usize::MAX,
    ensures
        forall|i: int| 0 <= i < n && posts_by_kind(#[trigger] bs[i]) > 0 ==>
            exists|k: int| 0 <= k < employer_sites(bs, n).len() && employer_sites(bs, n)[k] == (i as usize,
                Employer { max_workers: posts_by_kind(bs[i]) as u32, current_workers: 0, unstaffed_ticks: 0 }),
        forall|k: int| 0 <= k < employer_sites(bs, n).len() ==> {
            let (i, e) = #[trigger] employer_sites(bs, n)[k];
            &&& i < n
            &&& posts_by_kind(bs[i as int]) > 0
            &&& e == Employer { max_workers: posts_by_kind(bs[i as int]) as u32, current_workers: 0, unstaffed_ticks: 0 }
        },
        forall|j: int, k: int| 0 <= j < k < employer_sites(bs, n).len() ==>
            (#[trigger] employer_sites(bs, n)[j]).0 < (#[trigger] employer_sites(bs, n)[k]).0,
        forall|b: BuildingType| #[trigger] posts_of(b) == (if posts_by_kind(b) > 0 { Some(posts_by_kind(b) as u32) } else { None::<u32> }),
    decreases n,
{
    assert forall|b: BuildingType| #[trigger] posts_of(b) == (if posts_by_kind(b) > 0 { Some(posts_by_kind(b) as u32) } else { None::<u32> }) by {
        match b {
            BuildingType::Factory => {},
            BuildingType::Shop => {},
            BuildingType::Office => {},
            BuildingType::Farm => {},
            _ => {},
        }
    }
    if n > 0 {
        lemma_market_opens_one_employer_per_workplace(bs, n - 1);
        let prev = employer_sites(bs, n - 1);
        let cur = employer_sites(bs, n);
        assert(posts_of(bs[n - 1]) == (if posts_by_kind(bs[n - 1]) > 0 { Some(posts_by_kind(bs[n - 1]) as u32) } else { None::<u32> }));
        if posts_by_kind(bs[n - 1]) > 0 {
            assert(cur == prev.push(((n - 1) as usize, Employer { max_workers: posts_by_kind(bs[n - 1]) as u32, current_workers: 0, unstaffed_ticks: 0 })));
            assert forall|i: int| 0 <= i < n && posts_by_kind(#[trigger] bs[i]) > 0 implies
                exists|k: int| 0 <= k < cur.len() && cur[k] == (i as usize,
                    Employer { max_workers: posts_by_kind(bs[i]) as u32, current_workers: 0, unstaffed_ticks: 0 }) by {
                if i < n - 1 {
                    let k = choose|k: int| 0 <= k < prev.len() && prev[k] == (i as usize,
                        Employer { max_workers: posts_by_kind(bs[i]) as u32, current_workers: 0, unstaffed_ticks: 0 });
                    assert(cur[k] == prev[k]);
                } else {
                    assert(cur[prev.len() as int] == (i as usize,
                        Employer { max_workers: posts_by_kind(bs[i]) as u32, current_workers: 0, unstaffed_ticks: 0 }));
                }
            }
            assert forall|k: int| 0 <= k < cur.len() implies {
                let (i, e) = #[trigger] cur[k];
                &&& i < n
                &&& posts_by_kind(bs[i as int]) > 0
                &&& e == Employer { max_workers: posts_by_kind(bs[i as int]) as u32, current_workers: 0, unstaffed_ticks: 0 }
            } by {
                if k < prev.len() {
                    assert(cur[k] == prev[k]);
                }
            }
            assert forall|j: int, k: int| 0 <= j < k < cur.len() implies (#[trigger] cur[j]).0 < (#[trigger] cur[k]).0 by {
                assert(cur[j] == prev[j]);
                if k < prev.len() {
                    assert(cur[k] == prev[k]);
                }
            }
        } else {
            assert(cur == prev);
        }
    }
}

/// Indices of the homes (houses and apartments) among the first `n`
/// buildings, in building order.
pub open spec fn home_sites(bs: Seq<BuildingType>, n: int) -> Seq<usize>
    decreases n,
{
    if n <= 0 {
        seq![]
    } else {
        let prev = home_sites(bs, n - 1);
        if bs[n - 1] == BuildingType::House || bs[n - 1] == BuildingType::Apartment {
            prev.push((n - 1) as usize)
        } else {
            prev
        }
    }
}

proof fn lemma_home_sites_len(bs: Seq<BuildingType>, n: int)
    ensures
        home_sites(bs, n).len() <= (if n < 0 { 0 } else { n }),
    decreases n,
{
    if n > 0 {
        lemma_home_sites_len(bs, n - 1);
    }
}

/// Opens the market on the buildings of the city: an employer, with all its
/// posts vacant, for every building that employs anyone (see `posts_of`),
/// and a job-seeking worker in each of the first `INITIAL_WORKERS` homes.
/// Both lists give the index of the building and come in building order.
pub fn init_labor_market(buildings: &[BuildingType]) -> (r: (Vec<(usize, Employer)>, Vec<(usize, Worker)>))
    ensures
        r.0@ == employer_sites(buildings@, buildings@.len() as int),
        r.1@.len() == (if home_sites(buildings@, buildings@.len() as int).len() < INITIAL_WORKERS {
            home_sites(buildings@, buildings@.len() as int).len()
        } else {
            INITIAL_WORKERS as nat
        }),
        forall|k: int| 0 <= k < r.1@.len() ==> #[trigger] r.1@[k] == (home_sites(buildings@, buildings@.len() as int)[k], job_seeker()),
{
    let mut employers: Vec<(usize, Employer)> = Vec::new();
    let mut workers: Vec<(usize, Worker)> = Vec::new();
    let mut i: usize = 0;
    while i < buildings.len()
        invariant
            0 <= i <= buildings@.len(),
            employers@ == employer_sites(buildings@, i as int),
            workers@.len() == (if home_sites(buildings@, i as int).len() < INITIAL_WORKERS {
                home_sites(buildings@, i as int).len()
            } else {
                INITIAL_WORKERS as nat
            }),
            forall|k: int| 0 <= k < workers@.len() ==> #[trigger] workers@[k] == (home_sites(buildings@, i as int)[k], job_seeker()),
        decreases buildings@.len() - i,
    {
        let b = buildings[i];
        match employer_posts(b) {
            Some(m) => employers.push((i, Employer::new(m))),
            None => {},
        }
        if houses_workers(b) && workers.len() < INITIAL_WORKERS {
            workers.push((i, Worker::new()));
        }
        proof {
            lemma_home_sites_len(buildings@, i as int);
        }
        i = i + 1;
    }
    (employers, workers)
}

/// The candidate employers of worker `i`: its entry of `cands`, or none.
pub open spec fn candidates_of(cands: Seq<Seq<usize>>, i: int) -> Seq<usize> {
    if 0 <= i < cands.len() { cands[i] } else { seq![] }
}

/// Worker `i` has a commute longer than allowed, by its entry of `too_far`.
pub open spec fn commute_too_long(too_far: Seq<bool>, i: int) -> bool {
    0 <= i < too_far.len() && too_far[i]
}

/// First employer of `list`, from position `j` on, that exists and has a
/// vacant post.
pub open spec fn first_vacant(es: Seq<Employer>, list: Seq<usize>, j: int) -> Option<usize>
    decreases list.len() - j,
{
    if j < 0 || j >= list.len() {
        None
    } else if list[j] < es.len() && es[list[j] as int].current_workers < es[list[j] as int].max_workers {
        Some(list[j])
    } else {
        first_vacant(es, list, j + 1)
    }
}

/// Hiring of worker `i`: a job seeker takes the first employer of its
/// candidates with a vacant post, which then has one more worker.
pub open spec fn hire_step(st: (Seq<Worker>, Seq<Employer>), cands: Seq<Seq<usize>>, i: int) -> (Seq<Worker>, Seq<Employer>) {
    let (ws, es) = st;
    if ws[i].status == EmploymentStatus::Unemployed {
        match first_vacant(es, candidates_of(cands, i), 0) {
            Some(e) => (
                ws.update(i, Worker { status: EmploymentStatus::Employed, workplace: Some(e), unemployment_ticks: 0 }),
                es.update(e as int, Employer { current_workers: (es[e as int].current_workers + 1) as u32, ..es[e as int] }),
            ),
            None => st,
        }
    } else {
        st
    }
}

/// Workers and employers after the first `n` workers have been served.
pub open spec fn hiring(ws: Seq<Worker>, es: Seq<Employer>, cands: Seq<Seq<usize>>, n: nat) -> (Seq<Worker>, Seq<Employer>)
    decreases n,
{
    if n == 0 {
        (ws, es)
    } else {
        hire_step(hiring(ws, es, cands, (n - 1) as nat), cands, n - 1)
    }
}

/// Commute check of worker `i`: a worker employed when the tick began whose
/// commute is too long quits, and its employer (if it exists and has any)
/// loses a worker.
pub open spec fn quit_step(st: (Seq<Worker>, Seq<Employer>), before: Seq<Worker>, too_far: Seq<bool>, i: int) -> (Seq<Worker>, Seq<Employer>) {
    let (ws, es) = st;
    if before[i].status == EmploymentStatus::Employed && commute_too_long(too_far, i) {
        let w = ws[i];
        let es2 = match w.workplace {
            Some(e) => if e < es.len() && es[e as int].current_workers > 0 {
                es.update(e as int, Employer { current_workers: (es[e as int].current_workers - 1) as u32, ..es[e as int] })
            } else {
                es
            },
            None => es,
        };
        (ws.update(i, Worker { status: EmploymentStatus::Unemployed, workplace: None, ..w }), es2)
    } else {
        st
    }
}

/// Workers and employers after the commutes of the first `n` workers have
/// been checked.
pub open spec fn quitting(st: (Seq<Worker>, Seq<Employer>), before: Seq<Worker>, too_far: Seq<bool>, n: nat) -> (Seq<Worker>, Seq<Employer>)
    decreases n,
{
    if n == 0 {
        st
    } else {
        quit_step(quitting(st, before, too_far, (n - 1) as nat), before, too_far, n - 1)
    }
}

/// A worker after one more tick: a job seeker has searched one tick longer.
pub open spec fn searched(w: Worker) -> Worker {
    if w.status == EmploymentStatus::Unemployed {
        Worker { unemployment_ticks: (w.unemployment_ticks + 1) as u32, ..w }
    } else {
        w
    }
}

/// The job seeker has searched for more than `MAX_JOB_SEARCH_TICKS`.
pub open spec fn long_term(w: Worker) -> bool {
    w.status == EmploymentStatus::Unemployed && w.unemployment_ticks > MAX_JOB_SEARCH_TICKS
}

/// An employer after one more tick (see `Employer::tick_unstaffed`).
pub open spec fn unstaffed(e: Employer) -> Employer {
    if e.max_workers == 0 {
        e
    } else if e.current_workers == 0 {
        Employer { unstaffed_ticks: (e.unstaffed_ticks + 1) as u32, ..e }
    } else {
        Employer { unstaffed_ticks: 0, ..e }
    }
}

/// The employer closes: it has posts and has gone without any worker for
/// more than `MAX_UNSTAFFED_TICKS`.
pub open spec fn closes(e: Employer) -> bool {
    e.max_workers > 0 && e.current_workers == 0 && e.unstaffed_ticks > MAX_UNSTAFFED_TICKS
}

/// Indices, in order, of the job seekers among the first `n` workers who
/// have searched too long.
pub open spec fn long_term_indices(ws: Seq<Worker>, n: int) -> Seq<usize>
    decreases n,
{
    if n <= 0 {
        seq![]
    } else if long_term(ws[n - 1]) {
        long_term_indices(ws, n - 1).push((n - 1) as usize)
    } else {
        long_term_indices(ws, n - 1)
    }
}

/// Indices, in order, of the employers among the first `n` that close.
pub open spec fn closing_indices(es: Seq<Employer>, n: int) -> Seq<usize>
    decreases n,
{
    if n <= 0 {
        seq![]
    } else if closes(es[n - 1]) {
        closing_indices(es, n - 1).push((n - 1) as usize)
    } else {
        closing_indices(es, n - 1)
    }
}

/// The candidate lists as sequences.
pub open spec fn candidate_lists(c: Seq<Vec<usize>>) -> Seq<Seq<usize>> {
    c.map_values(|l: Vec<usize>| l@)
}

/// Workers after a tick of the market: hiring, then the commute check, then
/// one more tick of search for those without a job.
pub open spec fn workers_after_tick(ws: Seq<Worker>, es: Seq<Employer>, cands: Seq<Seq<usize>>, too_far: Seq<bool>) -> Seq<Worker> {
    let h = hiring(ws, es, cands, ws.len());
    let q = quitting(h, ws, too_far, ws.len());
    q.0.map_values(|w: Worker| searched(w))
}

/// Employers after a tick of the market: hiring, the commute check, then
/// the count of ticks without staff.
pub open spec fn employers_after_tick(ws: Seq<Worker>, es: Seq<Employer>, cands: Seq<Seq<usize>>, too_far: Seq<bool>) -> Seq<Employer> {
    let h = hiring(ws, es, cands, ws.len());
    let q = quitting(h, ws, too_far, ws.len());
    q.1.map_values(|e: Employer| unstaffed(e))
}

/// What a tick of the market leaves for the city to act on: the job seekers
/// who have searched too long (each may leave the city) and the employers
/// that close, both as indices in order.
#[derive(Debug)]
pub struct LaborTick {
    pub long_term: Vec<usize>,
    pub closures: Vec<usize>,
}

proof fn lemma_first_vacant_some(es: Seq<Employer>, list: Seq<usize>, j: int)
    requires
        first_vacant(es, list, j) is Some,
    ensures
        first_vacant(es, list, j)->0 < es.len(),
        es[first_vacant(es, list, j)->0 as int].current_workers < es[first_vacant(es, list, j)->0 as int].max_workers,
    decreases list.len() - j,
{
    if j < 0 || j >= list.len() {
    } else if list[j] < es.len() && es[list[j] as int].current_workers < es[list[j] as int].max_workers {
    } else {
        lemma_first_vacant_some(es, list, j + 1);
    }
}

/// First employer of `list` with a vacant post.
fn find_first_vacant(es: &Vec<Employer>, list: &Vec<usize>) -> (r: Option<usize>)
    ensures
        r == first_vacant(es@, list@, 0),
{
    let mut k: usize = 0;
    while k < list.len()
        invariant
            0 <= k <= list@.len(),
            first_vacant(es@, list@, 0) == first_vacant(es@, list@, k as int),
        decreases list@.len() - k,
    {
        let e = list[k];
        if e < es.len() && es[e].current_workers < es[e].max_workers {
            return Some(e);
        }
        k = k + 1;
    }
    None
}

/// The hiring phase of a tick (see `hiring`).
fn hire_workers(workers: &mut Vec<Worker>, employers: &mut Vec<Employer>, candidates: &Vec<Vec<usize>>)
    requires
        forall|i: int| 0 <= i < old(workers)@.len() ==> #[trigger] old(workers)@[i].unemployment_ticks < u32::MAX,
        forall|e: int| 0 <= e < old(employers)@.len() ==> #[trigger] old(employers)@[e].unstaffed_ticks < u32::MAX,
    ensures
        (final(workers)@, final(employers)@) == hiring(old(workers)@, old(employers)@, candidate_lists(candidates@), old(workers)@.len()),
        final(workers)@.len() == old(workers)@.len(),
        final(employers)@.len() == old(employers)@.len(),
        forall|i: int| 0 <= i < final(workers)@.len() ==> #[trigger] final(workers)@[i].unemployment_ticks < u32::MAX,
        forall|e: int| 0 <= e < final(employers)@.len() ==> #[trigger] final(employers)@[e].unstaffed_ticks < u32::MAX,
{
    let ghost ws0 = workers@;
    let ghost es0 = employers@;
    let ghost cands = candidate_lists(candidates@);
    let mut i: usize = 0;
    while i < workers.len()
        invariant
            0 <= i <= workers@.len(),
            workers@.len() == ws0.len(),
            employers@.len() == es0.len(),
            cands == candidate_lists(candidates@),
            (workers@, employers@) == hiring(ws0, es0, cands, i as nat),
            forall|k: int| 0 <= k < workers@.len() ==> #[trigger] workers@[k].unemployment_ticks < u32::MAX,
            forall|e: int| 0 <= e < employers@.len() ==> #[trigger] employers@[e].unstaffed_ticks < u32::MAX,
        decreases ws0.len() - i,
    {
        let ghost st = (workers@, employers@);
        if workers[i].status == EmploymentStatus::Unemployed {
            let found = if i < candidates.len() {
                assert(candidates_of(cands, i as int) == candidates@[i as int]@);
                find_first_vacant(employers, &candidates[i])
            } else {
                assert(candidates_of(cands, i as int) =~= Seq::<usize>::empty());
                None
            };
            match found {
                Some(e) => {
                    proof {
                        lemma_first_vacant_some(employers@, candidates_of(cands, i as int), 0);
                    }
                    workers.set(i, Worker { status: EmploymentStatus::Employed, workplace: Some(e), unemployment_ticks: 0 });
                    let old_e = employers[e];
                    employers.set(e, Employer { current_workers: old_e.current_workers + 1, ..old_e });
                },
                None => {},
            }
        }
        assert((workers@, employers@) == hire_step(st, cands, i as int));
        i = i + 1;
    }
}

/// The commute check of a tick (see `quitting`); `was_employed` tells which
/// workers were employed when the tick began.
fn check_commutes(workers: &mut Vec<Worker>, employers: &mut Vec<Employer>, before: Ghost<Seq<Worker>>, was_employed: &Vec<bool>, too_far: &Vec<bool>)
    requires
        before@.len() == old(workers)@.len(),
        was_employed@.len() == old(workers)@.len(),
        forall|i: int| 0 <= i < was_employed@.len() ==> #[trigger] was_employed@[i] == (before@[i].status == EmploymentStatus::Employed),
        forall|i: int| 0 <= i < old(workers)@.len() ==> #[trigger] old(workers)@[i].unemployment_ticks < u32::MAX,
        forall|e: int| 0 <= e < old(employers)@.len() ==> #[trigger] old(employers)@[e].unstaffed_ticks < u32::MAX,
    ensures
        (final(workers)@, final(employers)@) == quitting((old(workers)@, old(employers)@), before@, too_far@, old(workers)@.len()),
        final(workers)@.len() == old(workers)@.len(),
        final(employers)@.len() == old(employers)@.len(),
        forall|i: int| 0 <= i < final(workers)@.len() ==> #[trigger] final(workers)@[i].unemployment_ticks < u32::MAX,
        forall|e: int| 0 <= e < final(employers)@.len() ==> #[trigger] final(employers)@[e].unstaffed_ticks < u32::MAX,
{
    let ghost ws0 = workers@;
    let ghost es0 = employers@;
    let mut i: usize = 0;
    while i < workers.len()
        invariant
            0 <= i <= workers@.len(),
            workers@.len() == ws0.len(),
            employers@.len() == es0.len(),
            before@.len() == ws0.len(),
            was_employed@.len() == ws0.len(),
            forall|k: int| 0 <= k < was_employed@.len() ==> #[trigger] was_employed@[k] == (before@[k].status == EmploymentStatus::Employed),
            (workers@, employers@) == quitting((ws0, es0), before@, too_far@, i as nat),
            forall|k: int| 0 <= k < workers@.len() ==> #[trigger] workers@[k].unemployment_ticks < u32::MAX,
            forall|e: int| 0 <= e < employers@.len() ==> #[trigger] employers@[e].unstaffed_ticks < u32::MAX,
        decreases ws0.len() - i,
    {
        let ghost st = (workers@, employers@);
        let quits = was_employed[i] && i < too_far.len() && too_far[i];
        if quits {
            let w = workers[i];
            match w.workplace {
                Some(e) => {
                    if e < employers.len() && employers[e].current_workers > 0 {
                        let old_e = employers[e];
                        employers.set(e, Employer { current_workers: old_e.current_workers - 1, ..old_e });
                    }
                },
                None => {},
            }
            workers.set(i, Worker { status: EmploymentStatus::Unemployed, workplace: None, ..w });
        }
        assert((workers@, employers@) == quit_step(st, before@, too_far@, i as int));
        i = i + 1;
    }
}

/// One tick of the labour market. Job seekers, in order, take the first of
/// their candidate employers (`candidates[i]`: the employers within
/// commuting range of worker `i`, nearest first) with a vacant post; then
/// every worker employed when the tick began whose commute is too long
/// (`too_far[i]`) quits; then every job seeker has searched one tick longer
/// and every employer counts its ticks without staff. Returns the job
/// seekers who have searched too long and the employers that close.
pub fn tick_labor_market(workers: &mut Vec<Worker>, employers: &mut Vec<Employer>, candidates: &Vec<Vec<usize>>, too_far: &Vec<bool>) -> (r: LaborTick)
    requires
        forall|i: int| 0 <= i < old(workers)@.len() ==> #[trigger] old(workers)@[i].unemployment_ticks < u32::MAX,
        forall|e: int| 0 <= e < old(employers)@.len() ==> #[trigger] old(employers)@[e].unstaffed_ticks < u32::MAX,
    ensures
        final(workers)@ == workers_after_tick(old(workers)@, old(employers)@, candidate_lists(candidates@), too_far@),
        final(employers)@ == employers_after_tick(old(workers)@, old(employers)@, candidate_lists(candidates@), too_far@),
        r.long_term@ == long_term_indices(final(workers)@, final(workers)@.len() as int),
        r.closures@ == closing_indices(final(employers)@, final(employers)@.len() as int),
{
    let ghost ws0 = workers@;
    let ghost es0 = employers@;
    let mut was_employed: Vec<bool> = Vec::new();
    let mut i: usize = 0;
    while i < workers.len()
        invariant
            0 <= i <= workers@.len(),
            workers@ == ws0,
            was_employed@.len() == i,
            forall|k: int| 0 <= k < i ==> #[trigger] was_employed@[k] == (ws0[k].status == EmploymentStatus::Employed),
        decreases ws0.len() - i,
    {
        was_employed.push(workers[i].status == EmploymentStatus::Employed);
        i = i + 1;
    }
    hire_workers(workers, employers, candidates);
    check_commutes(workers, employers, Ghost(ws0), &was_employed, too_far);
    let ghost q = (workers@, employers@);
    let mut long: Vec<usize> = Vec::new();
    let mut i: usize = 0;
    while i < workers.len()
        invariant
            0 <= i <= workers@.len(),
            workers@.len() == q.0.len(),
            forall|k: int| 0 <= k < i ==> #[trigger] workers@[k] == searched(q.0[k]),
            forall|k: int| i <= k < workers@.len() ==> #[trigger] workers@[k] == q.0[k],
            forall|k: int| 0 <= k < q.0.len() ==> #[trigger] q.0[k].unemployment_ticks < u32::MAX,
            long@ == long_term_indices(q.0.map_values(|w: Worker| searched(w)), i as int),
        decreases q.0.len() - i,
    {
        let w = workers[i];
        if w.status == EmploymentStatus::Unemployed {
            workers.set(i, Worker { unemployment_ticks: w.unemployment_ticks + 1, ..w });
        }
        if workers[i].status == EmploymentStatus::Unemployed && workers[i].unemployment_ticks > MAX_JOB_SEARCH_TICKS {
            long.push(i);
        }
        i = i + 1;
    }
    assert(workers@ =~= q.0.map_values(|w: Worker| searched(w)));
    let mut closing: Vec<usize> = Vec::new();
    let mut e: usize = 0;
    while e < employers.len()
        invariant
            0 <= e <= employers@.len(),
            employers@.len() == q.1.len(),
            forall|k: int| 0 <= k < e ==> #[trigger] employers@[k] == unstaffed(q.1[k]),
            forall|k: int| e <= k < employers@.len() ==> #[trigger] employers@[k] == q.1[k],
            forall|k: int| 0 <= k < q.1.len() ==> #[trigger] q.1[k].unstaffed_ticks < u32::MAX,
            closing@ == closing_indices(q.1.map_values(|x: Employer| unstaffed(x)), e as int),
        decreases q.1.len() - e,
    {
        let mut emp = employers[e];
        let shut = emp.tick_unstaffed();
        employers.set(e, emp);
        if shut {
            closing.push(e);
        }
        e = e + 1;
    }
    assert(employers@ =~= q.1.map_values(|x: Employer| unstaffed(x)));
    LaborTick { long_term: long, closures: closing }
}

// ---------------------------------------------------------------------------
// Laws of the tick
// ---------------------------------------------------------------------------

/// Job seekers among the first `n` workers.
pub open spec fn job_seekers(ws: Seq<Worker>, n: int) -> int
    decreases n,
{
    if n <= 0 {
        0
    } else {
        job_seekers(ws, n - 1) + (if ws[n - 1].status == EmploymentStatus::Unemployed { 1int } else { 0int })
    }
}

/// No employer has more workers than posts.
pub open spec fn within_posts(es: Seq<Employer>) -> bool {
    forall|e: int| 0 <= e < es.len() ==> #[trigger] es[e].current_workers <= es[e].max_workers
}

proof fn lemma_hiring_shape(ws: Seq<Worker>, es: Seq<Employer>, cands: Seq<Seq<usize>>, n: nat)
    requires
        n <= ws.len(),
    ensures
        hiring(ws, es, cands, n).0.len() == ws.len(),
        hiring(ws, es, cands, n).1.len() == es.len(),
        within_posts(es) ==> within_posts(hiring(ws, es, cands, n).1),
        job_seekers(hiring(ws, es, cands, n).0, ws.len() as int) <= job_seekers(ws, ws.len() as int),
    decreases n,
{
    if n > 0 {
        lemma_hiring_shape(ws, es, cands, (n - 1) as nat);
        let st = hiring(ws, es, cands, (n - 1) as nat);
        let i = n - 1;
        if st.0[i].status == EmploymentStatus::Unemployed {
            match first_vacant(st.1, candidates_of(cands, i), 0) {
                Some(e) => {
                    lemma_first_vacant_some(st.1, candidates_of(cands, i), 0);
                    let w = Worker { status: EmploymentStatus::Employed, workplace: Some(e), unemployment_ticks: 0 };
                    lemma_seekers_update(st.0, i, w, ws.len() as int);
                    let es2 = hiring(ws, es, cands, n).1;
                    if within_posts(es) {
                        assert forall|f: int| 0 <= f < es2.len() implies #[trigger] es2[f].current_workers <= es2[f].max_workers by {
                            if f != e {
                                assert(st.1[f].current_workers <= st.1[f].max_workers);
                            }
                        }
                    }
                },
                None => {},
            }
        }
    }
}

proof fn lemma_seekers_update(s: Seq<Worker>, i: int, w: Worker, n: int)
    requires
        0 <= i < s.len(),
        n <= s.len(),
        w.status != EmploymentStatus::Unemployed,
    ensures
        job_seekers(s.update(i, w), n) <= job_seekers(s, n),
    decreases n,
{
    if n > 0 {
        lemma_seekers_update(s, i, w, n - 1);
    }
}

proof fn lemma_quitting_within_posts(st: (Seq<Worker>, Seq<Employer>), before: Seq<Worker>, too_far: Seq<bool>, n: nat)
    requires
        n <= st.0.len(),
        n <= before.len(),
        within_posts(st.1),
    ensures
        quitting(st, before, too_far, n).0.len() == st.0.len(),
        within_posts(quitting(st, before, too_far, n).1),
    decreases n,
{
    if n > 0 {
        lemma_quitting_within_posts(st, before, too_far, (n - 1) as nat);
        let prev = quitting(st, before, too_far, (n - 1) as nat);
        let es2 = quitting(st, before, too_far, n).1;
        assert forall|f: int| 0 <= f < es2.len() implies #[trigger] es2[f].current_workers <= es2[f].max_workers by {
            assert(prev.1[f].current_workers <= prev.1[f].max_workers);
        }
    }
}

proof fn lemma_quitting_none(st: (Seq<Worker>, Seq<Employer>), before: Seq<Worker>, too_far: Seq<bool>, n: nat)
    requires
        forall|i: int| 0 <= i < n ==> !(#[trigger] before[i].status == EmploymentStatus::Employed && commute_too_long(too_far, i)),
    ensures
        quitting(st, before, too_far, n) == st,
    decreases n,
{
    if n > 0 {
        lemma_quitting_none(st, before, too_far, (n - 1) as nat);
        let i = n - 1;
        assert(!(before[i].status == EmploymentStatus::Employed && commute_too_long(too_far, i)));
    }
}

proof fn lemma_search_keeps_seekers(ws: Seq<Worker>, n: int)
    requires
        n <= ws.len(),
    ensures
        job_seekers(ws.map_values(|w: Worker| searched(w)), n) == job_seekers(ws, n),
    decreases n,
{
    if n > 0 {
        lemma_search_keeps_seekers(ws, n - 1);
    }
}

proof fn lemma_seekers_update_exact(s: Seq<Worker>, i: int, w: Worker, n: int)
    requires
        0 <= i < n <= s.len(),
    ensures
        job_seekers(s.update(i, w), n) == job_seekers(s, n)
            - (if s[i].status == EmploymentStatus::Unemployed { 1int } else { 0int })
            + (if w.status == EmploymentStatus::Unemployed { 1int } else { 0int }),
    decreases n,
{
    if n - 1 > i {
        lemma_seekers_update_exact(s, i, w, n - 1);
    } else {
        lemma_seekers_same_prefix(s, s.update(i, w), n - 1);
    }
}

proof fn lemma_seekers_same_prefix(a: Seq<Worker>, b: Seq<Worker>, n: int)
    requires
        n <= a.len(),
        n <= b.len(),
        forall|k: int| 0 <= k < n ==> a[k] == b[k],
    ensures
        job_seekers(a, n) == job_seekers(b, n),
    decreases n,
{
    if n > 0 {
        lemma_seekers_same_prefix(a, b, n - 1);
    }
}

proof fn lemma_vacancies_update(s: Seq<Employer>, e: int, x: Employer, n: int)
    requires
        0 <= e < n <= s.len(),
    ensures
        total_vacancies(s.update(e, x), n) == total_vacancies(s, n) - vacancies_of(s[e]) + vacancies_of(x),
    decreases n,
{
    if n - 1 > e {
        lemma_vacancies_update(s, e, x, n - 1);
    } else {
        lemma_vacancies_same_prefix(s, s.update(e, x), n - 1);
    }
}

proof fn lemma_vacancies_same_prefix(a: Seq<Employer>, b: Seq<Employer>, n: int)
    requires
        n <= a.len(),
        n <= b.len(),
        forall|k: int| 0 <= k < n ==> a[k] == b[k],
    ensures
        total_vacancies(a, n) == total_vacancies(b, n),
    decreases n,
{
    if n > 0 {
        lemma_vacancies_same_prefix(a, b, n - 1);
    }
}

proof fn lemma_vacancies_nonneg(s: Seq<Employer>, n: int)
    ensures
        total_vacancies(s, n) >= 0,
    decreases n,
{
    if n > 0 {
        lemma_vacancies_nonneg(s, n - 1);
    }
}

proof fn lemma_seekers_nonneg(s: Seq<Worker>, n: int)
    ensures
        job_seekers(s, n) >= 0,
    decreases n,
{
    if n > 0 {
        lemma_seekers_nonneg(s, n - 1);
    }
}

/// What hiring the first `n` workers keeps, as an induction hypothesis.
spec fn hiring_kept(ws: Seq<Worker>, es: Seq<Employer>, h: (Seq<Worker>, Seq<Employer>)) -> bool {
    &&& h.0.len() == ws.len()
    &&& h.1.len() == es.len()
    &&& within_posts(h.1)
    &&& forall|i: int| 0 <= i < ws.len() && ws[i].status != EmploymentStatus::Unemployed ==> #[trigger] h.0[i] == ws[i]
    &&& forall|i: int| 0 <= i < ws.len() && ws[i].status == EmploymentStatus::Unemployed ==>
        #[trigger] h.0[i] == ws[i] || hired_by_some_employer(h.0[i], es.len())
    &&& job_seekers(ws, ws.len() as int) - job_seekers(h.0, ws.len() as int) + total_vacancies(h.1, es.len() as int)
        == total_vacancies(es, es.len() as int)
}

/// `w` has just been hired: employed by one of the first `n_employers`
/// employers, with its search counter back at zero.
pub open spec fn hired_by_some_employer(w: Worker, n_employers: nat) -> bool {
    &&& w.status == EmploymentStatus::Employed
    &&& w.unemployment_ticks == 0
    &&& w.workplace matches Some(e) && e < n_employers
}

proof fn lemma_hiring_kept(ws: Seq<Worker>, es: Seq<Employer>, cands: Seq<Seq<usize>>, n: nat)
    requires
        n <= ws.len(),
        within_posts(es),
    ensures
        hiring_kept(ws, es, hiring(ws, es, cands, n)),
    decreases n,
{
    lemma_hiring_shape(ws, es, cands, n);
    if n > 0 {
        lemma_hiring_kept(ws, es, cands, (n - 1) as nat);
        let st = hiring(ws, es, cands, (n - 1) as nat);
        let h = hiring(ws, es, cands, n);
        let i = n - 1;
        if st.0[i].status == EmploymentStatus::Unemployed {
            match first_vacant(st.1, candidates_of(cands, i), 0) {
                Some(e) => {
                    lemma_first_vacant_some(st.1, candidates_of(cands, i), 0);
                    let w = Worker { status: EmploymentStatus::Employed, workplace: Some(e), unemployment_ticks: 0 };
                    let x = Employer { current_workers: (st.1[e as int].current_workers + 1) as u32, ..st.1[e as int] };
                    assert(h.0 == st.0.update(i, w));
                    assert(h.1 == st.1.update(e as int, x));
                    lemma_seekers_update_exact(st.0, i, w, ws.len() as int);
                    lemma_vacancies_update(st.1, e as int, x, es.len() as int);
                    assert(ws[i].status == EmploymentStatus::Unemployed) by {
                        if ws[i].status != EmploymentStatus::Unemployed {
                            assert(st.0[i] == ws[i]);
                        }
                    }
                    assert(hired_by_some_employer(h.0[i], es.len()));
                    assert forall|k: int| 0 <= k < ws.len() && ws[k].status == EmploymentStatus::Unemployed implies
                        #[trigger] h.0[k] == ws[k] || hired_by_some_employer(h.0[k], es.len()) by {
                        if k != i {
                            assert(h.0[k] == st.0[k]);
                        }
                    }
                    assert forall|k: int| 0 <= k < ws.len() && ws[k].status != EmploymentStatus::Unemployed implies
                        #[trigger] h.0[k] == ws[k] by {
                        assert(k != i);
                        assert(h.0[k] == st.0[k]);
                    }
                },
                None => {},
            }
        }
    }
}

/// Hiring, the matching of job seekers to employers, serves the workers in
/// order: it never gives an employer more workers than posts, leaves every
/// resident who was not looking for work as it was, places each new hire
/// with an existing employer and a search counter of zero, and hires no
/// more residents than there were job seekers or vacant posts.
pub proof fn lemma_hiring_fills_vacancies(ws: Seq<Worker>, es: Seq<Employer>, cands: Seq<Seq<usize>>)
    requires
        within_posts(es),
    ensures
        ({
            let h = hiring(ws, es, cands, ws.len());
            let hires = job_seekers(ws, ws.len() as int) - job_seekers(h.0, ws.len() as int);
            &&& h.0.len() == ws.len()
            &&& h.1.len() == es.len()
            &&& within_posts(h.1)
            &&& forall|i: int| 0 <= i < ws.len() && ws[i].status != EmploymentStatus::Unemployed ==>
                #[trigger] h.0[i] == ws[i]
            &&& forall|i: int| 0 <= i < ws.len() && ws[i].status == EmploymentStatus::Unemployed ==>
                #[trigger] h.0[i] == ws[i] || hired_by_some_employer(h.0[i], es.len())
            &&& 0 <= hires
            &&& hires <= job_seekers(ws, ws.len() as int)
            &&& hires <= total_vacancies(es, es.len() as int)
        }),
{
    lemma_hiring_kept(ws, es, cands, ws.len());
    let h = hiring(ws, es, cands, ws.len());
    lemma_hiring_shape(ws, es, cands, ws.len());
    lemma_vacancies_nonneg(h.1, es.len() as int);
    lemma_seekers_nonneg(h.0, ws.len() as int);
}

/// A tick of the market never gives an employer more workers than posts,
/// provided none had more before.
pub proof fn lemma_tick_keeps_staff_within_posts(ws: Seq<Worker>, es: Seq<Employer>, cands: Seq<Seq<usize>>, too_far: Seq<bool>)
    requires
        within_posts(es),
    ensures
        within_posts(employers_after_tick(ws, es, cands, too_far)),
{
    lemma_hiring_shape(ws, es, cands, ws.len());
    let h = hiring(ws, es, cands, ws.len());
    lemma_quitting_within_posts(h, ws, too_far, ws.len());
    let q = quitting(h, ws, too_far, ws.len());
    let after = employers_after_tick(ws, es, cands, too_far);
    assert forall|f: int| 0 <= f < after.len() implies #[trigger] after[f].current_workers <= after[f].max_workers by {
        assert(q.1[f].current_workers <= q.1[f].max_workers);
    }
}

/// A tick of the market, when no employer has more workers than posts and
/// no worker employed at its start has too long a commute, leaves no more
/// job seekers than there were and no employer with more workers than
/// posts.
pub proof fn lemma_tick_labor_market(ws: Seq<Worker>, es: Seq<Employer>, cands: Seq<Seq<usize>>, too_far: Seq<bool>)
    requires
        within_posts(es),
        forall|i: int| 0 <= i < ws.len() ==> !(#[trigger] ws[i].status == EmploymentStatus::Employed && commute_too_long(too_far, i)),
    ensures
        job_seekers(workers_after_tick(ws, es, cands, too_far), ws.len() as int) <= job_seekers(ws, ws.len() as int),
        within_posts(employers_after_tick(ws, es, cands, too_far)),
{
    lemma_tick_never_adds_job_seekers(ws, es, cands, too_far);
    lemma_tick_keeps_staff_within_posts(ws, es, cands, too_far);
}

/// When no worker employed at the start of a tick has too long a commute,
/// the tick leaves no more job seekers than there were: hiring only turns
/// job seekers into workers, and the search changes nobody's status.
pub proof fn lemma_tick_never_adds_job_seekers(ws: Seq<Worker>, es: Seq<Employer>, cands: Seq<Seq<usize>>, too_far: Seq<bool>)
    requires
        forall|i: int| 0 <= i < ws.len() ==> !(#[trigger] ws[i].status == EmploymentStatus::Employed && commute_too_long(too_far, i)),
    ensures
        job_seekers(workers_after_tick(ws, es, cands, too_far), ws.len() as int) <= job_seekers(ws, ws.len() as int),
{
    lemma_hiring_shape(ws, es, cands, ws.len());
    let h = hiring(ws, es, cands, ws.len());
    lemma_quitting_none(h, ws, too_far, ws.len());
    lemma_search_keeps_seekers(h.0, ws.len() as int);
}

} // verus!
