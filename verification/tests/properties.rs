use rs_bom::books::book_at;
use rs_bom::canonical::{merge_references, sort_references, Ranking};
use rs_bom::{RangeCollection, RangeType, VerseRangeReference};

/// A small generator of numbers that gives the same numbers on every run.
struct Numbers(u64);

impl Numbers {
    fn next(&mut self, below: usize) -> usize {
        self.0 = self.0.wrapping_mul(6364136223846793005).wrapping_add(1442695040888963407);
        ((self.0 >> 33) as usize) % below
    }
}

fn clause(numbers: &mut Numbers, rows: &[usize], chapters_only: Option<bool>) -> VerseRangeReference {
    let book = book_at(rows[numbers.next(rows.len())]);
    let start = 1 + numbers.next(6);
    let end = start + numbers.next(3);
    let whole = match chapters_only {
        Some(kind) => kind,
        None => numbers.next(2) == 0,
    };
    let range_type = if whole {
        RangeType::StartEndChapter { start, end }
    } else {
        RangeType::StartEndVerse { chapter: 1 + numbers.next(3), start, end }
    };
    VerseRangeReference { range_type, book_index: book.book_index, work: book.work }
}

fn citation(clauses: &[VerseRangeReference], numbers: &mut Numbers) -> String {
    let dashes = ["-", "–", "—", " - "];
    let mut parts: Vec<String> = Vec::new();
    for c in clauses {
        let book = (0..81)
            .map(book_at)
            .find(|b| b.work == c.work && b.book_index == c.book_index)
            .unwrap();
        let name = if numbers.next(2) == 0 { book.long_name } else { book.short_name };
        let dash = dashes[numbers.next(dashes.len())];
        let span = |start: usize, end: usize| {
            if start == end {
                format!("{}", start)
            } else {
                format!("{}{}{}", start, dash, end)
            }
        };
        parts.push(match c.range_type {
            RangeType::StartEndChapter { start, end } => format!("{} {}", name, span(start, end)),
            RangeType::StartEndVerse { chapter, start, end } => {
                format!(" {}  {} : {}", name, chapter, span(start, end))
            }
        });
    }
    parts.join(";")
}

fn collection(numbers: &mut Numbers, rows: &[usize], chapters_only: Option<bool>) -> String {
    let count = 1 + numbers.next(6);
    let clauses: Vec<VerseRangeReference> =
        (0..count).map(|_| clause(numbers, rows, chapters_only)).collect();
    citation(&clauses, numbers)
}

#[test]
fn formatting_is_stable_on_many_citations() {
    let mut numbers = Numbers(7);
    let rows = [0usize, 38, 39, 65, 66, 72, 74, 80];
    for _ in 0..60 {
        let input = collection(&mut numbers, &rows, None);
        let once = RangeCollection::new(&input).unwrap().to_canonical_string();
        let twice = RangeCollection::new(&once).unwrap().to_canonical_string();
        assert_eq!(twice, once, "{}", input);
    }
}

#[test]
fn canonical_form_is_stable_on_many_unmixed_citations() {
    let mut numbers = Numbers(11);
    let rows = [66usize, 73, 74];
    for round in 0..60 {
        let input = collection(&mut numbers, &rows, Some(round % 2 == 0));
        let mut parsed = RangeCollection::new(&input).unwrap();
        parsed.canonicalize();
        let once = parsed.to_canonical_string();
        parsed.canonicalize();
        assert_eq!(parsed.to_canonical_string(), once, "{}", input);
        let mut written = RangeCollection::new(&once).unwrap();
        written.canonicalize();
        assert_eq!(written.to_canonical_string(), once, "{}", input);
    }
}

#[test]
fn sorting_rearranges_and_orders_neighbours() {
    let mut numbers = Numbers(13);
    let rows = [66usize, 66, 0, 74];
    for _ in 0..200 {
        let count = numbers.next(8);
        let clauses: Vec<VerseRangeReference> =
            (0..count).map(|_| clause(&mut numbers, &rows, None)).collect();
        let sorted = sort_references(&clauses);
        assert_eq!(sorted.len(), clauses.len());
        for c in &clauses {
            let before = clauses.iter().filter(|x| *x == c).count();
            let after = sorted.iter().filter(|x| *x == c).count();
            assert_eq!(before, after);
        }
        for pair in sorted.windows(2) {
            assert_ne!(pair[0].compare(&pair[1]), Ranking::Greater);
        }
        assert_eq!(sort_references(&sorted), sorted);
        let merged = merge_references(&sorted);
        assert!(merged.len() <= sorted.len());
        assert_eq!(merged.is_empty(), sorted.is_empty());
    }
}
