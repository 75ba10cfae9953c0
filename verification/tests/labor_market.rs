use citybound::ecs::BuildingType;
use citybound::labor_market::{Employer, EmploymentStatus, Worker, count_job_openings, match_workers_to_jobs, employer_posts,
    houses_workers, tick_job_search, tick_labor_market, init_labor_market, MAX_UNSTAFFED_TICKS, MAX_JOB_SEARCH_TICKS};

#[test]
fn test_worker_creation() {
    let w = Worker::new();
    assert_eq!(w.status, EmploymentStatus::Unemployed);
}

#[test]
fn test_employer_needs_workers() {
    let e = Employer::new(10);
    assert!(e.needs_workers());
    assert_eq!(e.vacancies(), 10);
}

#[test]
fn test_job_matching_reduces_unemployment() {
    // A factory with five posts and five job seekers within commuting range.
    let mut employers = vec![Employer::new(5)];
    let mut workers = vec![Worker::new(); 5];
    let candidates = vec![vec![0usize]; 5];
    let too_far = vec![false; 5];
    let unemployed = |ws: &Vec<Worker>| ws.iter().filter(|w| w.status == EmploymentStatus::Unemployed).count();
    let before = unemployed(&workers);
    tick_labor_market(&mut workers, &mut employers, &candidates, &too_far);
    let after = unemployed(&workers);
    assert!(after <= before);
}

#[test]
fn matching_fills_every_post() {
    let vacancies = vec![5u32];
    let candidates = vec![vec![0usize]; 5];
    let (placements, left) = match_workers_to_jobs(&vacancies, &candidates);
    assert_eq!(placements.len(), 5);
    assert_eq!(left, vec![0]);
}

#[test]
fn a_tick_hires_the_nearest_with_room() {
    let mut employers = vec![Employer::new(1), Employer::new(2)];
    let mut workers = vec![Worker::new(), Worker::employed(1), Worker::new(), Worker::new()];
    let candidates = vec![vec![0, 1], vec![], vec![0, 1], vec![0]];
    let too_far = vec![false; 4];
    let r = tick_labor_market(&mut workers, &mut employers, &candidates, &too_far);
    assert_eq!(workers[0], Worker::employed(0));
    assert_eq!(workers[1], Worker::employed(1));
    assert_eq!(workers[2], Worker::employed(1));
    assert_eq!(workers[3].status, EmploymentStatus::Unemployed);
    assert_eq!(workers[3].unemployment_ticks, 1);
    assert_eq!(employers[0].current_workers, 1);
    assert_eq!(employers[1].current_workers, 1);
    assert!(r.long_term.is_empty());
    assert!(r.closures.is_empty());
}

#[test]
fn long_commutes_quit_and_free_the_post() {
    let mut e = Employer::new(3);
    e.current_workers = 2;
    let mut employers = vec![e];
    let mut workers = vec![Worker::employed(0), Worker::employed(0)];
    workers[1].unemployment_ticks = MAX_JOB_SEARCH_TICKS;
    let candidates = vec![vec![0], vec![0]];
    let too_far = vec![false, true];
    let r = tick_labor_market(&mut workers, &mut employers, &candidates, &too_far);
    assert_eq!(workers[0], Worker::employed(0));
    assert_eq!(workers[1].status, EmploymentStatus::Unemployed);
    assert_eq!(workers[1].workplace, None);
    assert_eq!(workers[1].unemployment_ticks, MAX_JOB_SEARCH_TICKS + 1);
    assert_eq!(employers[0].current_workers, 1);
    assert_eq!(r.long_term, vec![1]);
}

#[test]
fn unstaffed_employers_close_in_a_tick() {
    let mut idle = Employer::new(4);
    idle.unstaffed_ticks = MAX_UNSTAFFED_TICKS;
    let mut employers = vec![Employer::new(0), idle];
    let mut workers: Vec<Worker> = Vec::new();
    let r = tick_labor_market(&mut workers, &mut employers, &vec![], &vec![]);
    assert_eq!(r.closures, vec![1]);
    assert_eq!(employers[1].unstaffed_ticks, MAX_UNSTAFFED_TICKS + 1);
    assert_eq!(employers[0].unstaffed_ticks, 0);
}

#[test]
fn opening_the_market_on_the_buildings() {
    let buildings = [BuildingType::House, BuildingType::Factory, BuildingType::Hospital, BuildingType::Apartment, BuildingType::Shop];
    let (employers, workers) = init_labor_market(&buildings);
    assert_eq!(employers, vec![(1, Employer::new(10)), (4, Employer::new(3))]);
    assert_eq!(workers, vec![(0, Worker::new()), (3, Worker::new())]);
    let many = vec![BuildingType::House; 80];
    let (none, homes) = init_labor_market(&many);
    assert!(none.is_empty());
    assert_eq!(homes.len(), 50);
    assert_eq!(homes[49].0, 49);
}

#[test]
fn matching_takes_the_nearest_employer_with_room() {
    let vacancies = vec![1u32, 2, 0];
    let candidates = vec![vec![0, 1], vec![0, 1], vec![2, 5, 1], vec![2], vec![1, 0]];
    let (placements, left) = match_workers_to_jobs(&vacancies, &candidates);
    assert_eq!(placements, vec![(0, 0), (1, 1), (2, 1)]);
    assert_eq!(left, vec![0, 0, 0]);
}

#[test]
fn openings_add_up_vacancies() {
    let mut full = Employer::new(3);
    full.current_workers = 3;
    let mut over = Employer::new(2);
    over.current_workers = 5;
    let es = [Employer::new(10), full, over, Employer::new(4)];
    assert_eq!(count_job_openings(&es), 14);
}

#[test]
fn employers_close_after_long_without_staff() {
    let mut e = Employer::new(3);
    e.unstaffed_ticks = MAX_UNSTAFFED_TICKS - 1;
    assert!(!e.tick_unstaffed());
    assert!(e.tick_unstaffed());
    e.current_workers = 1;
    assert!(!e.tick_unstaffed());
    assert_eq!(e.unstaffed_ticks, 0);
    let mut none = Employer::new(0);
    none.unstaffed_ticks = 9999;
    assert!(!none.tick_unstaffed());
    assert_eq!(none.unstaffed_ticks, 9999);
}

#[test]
fn posts_per_building() {
    assert_eq!(employer_posts(BuildingType::Factory), Some(10));
    assert_eq!(employer_posts(BuildingType::Farm), Some(5));
    assert_eq!(employer_posts(BuildingType::House), None);
    assert!(houses_workers(BuildingType::Apartment));
    assert!(!houses_workers(BuildingType::Shop));
}

#[test]
fn job_search_becomes_long_term() {
    let mut t = 199u32;
    assert!(!tick_job_search(&mut t));
    assert!(tick_job_search(&mut t));
    assert_eq!(t, 201);
}

#[test]
fn hiring_stops_at_the_vacant_posts_and_spares_the_retired() {
    let mut employers = vec![Employer::new(2)];
    let mut retired = Worker::new();
    retired.status = EmploymentStatus::Retired;
    let mut workers = vec![Worker::new(), retired, Worker::new(), Worker::new()];
    let candidates = vec![vec![0usize]; 4];
    let too_far = vec![false; 4];
    tick_labor_market(&mut workers, &mut employers, &candidates, &too_far);
    assert_eq!(workers[0], Worker::employed(0));
    assert_eq!(workers[1], retired);
    assert_eq!(workers[2], Worker::employed(0));
    assert_eq!(workers[3].status, EmploymentStatus::Unemployed);
    assert_eq!(employers[0].current_workers, 2);
    let hired = workers.iter().filter(|w| w.status == EmploymentStatus::Employed).count();
    assert_eq!(hired, 2);
}

#[test]
fn matching_places_no_more_than_seekers_or_posts() {
    let vacancies = vec![1u32, 2];
    let candidates = vec![vec![0usize, 1], vec![0, 1], vec![1], vec![0, 1], vec![5]];
    let (placements, left) = match_workers_to_jobs(&vacancies, &candidates);
    assert_eq!(placements, vec![(0, 0), (1, 1), (2, 1)]);
    assert_eq!(left, vec![0, 0]);
    assert!(placements.len() <= candidates.len());
    assert!(placements.len() <= 3);
}
