//! The reports in which a terminal emulator tells its pixel geometry: the
//! escape character, `[`, three decimal numbers with `;` between them, and `t`.
//! The first number says what was measured, the others are height and width.
use crate::messages::PixelDimensions;
use crate::messages::SizeInPixels;
use vstd::arithmetic::power::pow;
use vstd::prelude::*;

verus! {

/// The character that starts a report.
pub const ESC: char = '\u{1b}';

/// The number in reports of the text area's size.
pub const TEXT_AREA: usize = 4;

/// The number in reports of the size of a character cell.
pub const CHARACTER_CELL: usize = 6;

pub open spec fn is_digit(c: char) -> bool {
    '0' <= c && c <= '9'
}

/// A decimal number: one digit or more.
pub open spec fn is_number(text: Seq<char>) -> bool {
    &&& text.len() > 0
    &&& forall|i: int| 0 <= i < text.len() ==> is_digit(#[trigger] text[i])
}

pub open spec fn digit_value(c: char) -> nat {
    (c as int - '0' as int) as nat
}

/// The value of a decimal number.
pub open spec fn decimal(text: Seq<char>) -> nat
    decreases text.len(),
{
    if text.len() == 0 {
        0
    } else {
        10 * decimal(text.drop_last()) + digit_value(text.last())
    }
}

/// A report with these three numbers.
pub open spec fn report_text(kind: Seq<char>, height: Seq<char>, width: Seq<char>) -> Seq<char> {
    seq![ESC, '['] + kind + seq![';'] + height + seq![';'] + width + seq!['t']
}

/// `text` is a report whose numbers have these values.
pub open spec fn is_report(text: Seq<char>, kind: nat, height: nat, width: nat) -> bool {
    exists|k: Seq<char>, h: Seq<char>, w: Seq<char>|
        {
            &&& is_number(k) && is_number(h) && is_number(w)
            &&& decimal(k) == kind && decimal(h) == height && decimal(w) == width
            &&& text == #[trigger] report_text(k, h, w)
        }
}

/// More characters can make a report of `text`.
pub open spec fn is_report_prefix(text: Seq<char>) -> bool {
    exists|rest: Seq<char>, kind: nat, height: nat, width: nat|
        rest.len() > 0 && #[trigger] is_report(text + rest, kind, height, width)
}

/// What a report with these numbers tells. Numbers that are too large for a
/// size, and other kinds of report, tell nothing.
pub open spec fn told_by(kind: nat, height: nat, width: nat) -> Option<PixelDimensions> {
    if height > usize::MAX || width > usize::MAX {
        None
    } else {
        let size = SizeInPixels { height: height as usize, width: width as usize };
        if kind == TEXT_AREA {
            Some(PixelDimensions { text_area_size: Some(size), character_cell_size: None })
        } else if kind == CHARACTER_CELL {
            Some(PixelDimensions { text_area_size: None, character_cell_size: Some(size) })
        } else {
            None
        }
    }
}

/// `text` is a report that tells `pixel_dimensions`.
pub open spec fn tells(text: Seq<char>, pixel_dimensions: PixelDimensions) -> bool {
    exists|kind: nat, height: nat, width: nat|
        #[trigger] is_report(text, kind, height, width) && told_by(kind, height, width) == Some(
            pixel_dimensions,
        )
}

/// What became of the characters read so far.
#[derive(Debug, Clone, Copy, PartialEq, Eq)]
pub enum Reading {
    /// They are the beginning of a report.
    Incomplete,
    /// They are a report.
    Complete(PixelDimensions),
    /// They are no report and cannot become one.
    Corrupted,
}

/// How `text` reads.
pub open spec fn reading(text: Seq<char>) -> Reading {
    if is_report_prefix(text) {
        Reading::Incomplete
    } else if exists|pixel_dimensions: PixelDimensions| tells(text, pixel_dimensions) {
        Reading::Complete(choose|pixel_dimensions: PixelDimensions| tells(text, pixel_dimensions))
    } else {
        Reading::Corrupted
    }
}

/// How far into a report a text goes, with the numbers read so far.
enum Scan {
    Start,
    Escape,
    Bracket,
    Kind(nat),
    KindEnd(nat),
    Height(nat, nat),
    HeightEnd(nat, nat),
    Width(nat, nat, nat),
    Done(nat, nat, nat),
    Dead,
}

impl Scan {
    spec fn is_open(self) -> bool {
        !(self is Done) && !(self is Dead)
    }

    spec fn step(self, c: char) -> Scan {
        let d = digit_value(c);
        match self {
            Scan::Start if c == ESC => Scan::Escape,
            Scan::Escape if c == '[' => Scan::Bracket,
            Scan::Bracket if is_digit(c) => Scan::Kind(d),
            Scan::Kind(k) if is_digit(c) => Scan::Kind(10 * k + d),
            Scan::Kind(k) if c == ';' => Scan::KindEnd(k),
            Scan::KindEnd(k) if is_digit(c) => Scan::Height(k, d),
            Scan::Height(k, h) if is_digit(c) => Scan::Height(k, 10 * h + d),
            Scan::Height(k, h) if c == ';' => Scan::HeightEnd(k, h),
            Scan::HeightEnd(k, h) if is_digit(c) => Scan::Width(k, h, d),
            Scan::Width(k, h, w) if is_digit(c) => Scan::Width(k, h, 10 * w + d),
            Scan::Width(k, h, w) if c == 't' => Scan::Done(k, h, w),
            _ => Scan::Dead,
        }
    }
}

spec fn scan(text: Seq<char>) -> Scan
    decreases text.len(),
{
    if text.len() == 0 {
        Scan::Start
    } else {
        scan(text.drop_last()).step(text.last())
    }
}

proof fn lemma_scan_push(text: Seq<char>, c: char)
    ensures
        scan(text.push(c)) == scan(text).step(c),
{
    assert(text.push(c).drop_last() =~= text);
}

/// Nothing can follow a whole report or a text that is none.
proof fn lemma_scan_beyond(text: Seq<char>, rest: Seq<char>)
    requires
        !scan(text).is_open(),
        rest.len() > 0,
    ensures
        scan(text + rest) is Dead,
    decreases rest.len(),
{
    assert((text + rest).drop_last() =~= text + rest.drop_last());
    if rest.len() == 1 {
        assert(text + rest.drop_last() =~= text);
    } else {
        lemma_scan_beyond(text, rest.drop_last());
    }
}

/// A number is read digit by digit.
proof fn lemma_scan_number(text: Seq<char>, number: Seq<char>)
    requires
        is_number(number),
    ensures
        scan(text) is Bracket ==> scan(text + number) == Scan::Kind(decimal(number)),
        scan(text) matches Scan::KindEnd(k) ==> scan(text + number) == Scan::Height(
            k,
            decimal(number),
        ),
        scan(text) matches Scan::HeightEnd(k, h) ==> scan(text + number) == Scan::Width(
            k,
            h,
            decimal(number),
        ),
    decreases number.len(),
{
    let front = number.drop_last();
    assert((text + number).drop_last() =~= text + front);
    assert(is_digit(number[number.len() - 1]));
    if front.len() == 0 {
        assert(text + front =~= text);
        assert(decimal(front) == 0);
    } else {
        assert forall|i: int| 0 <= i < front.len() implies is_digit(#[trigger] front[i]) by {
            assert(is_digit(number[i]));
        }
        lemma_scan_number(text, front);
    }
}

/// A report is read to its end, with its numbers.
proof fn lemma_scan_report(kind: Seq<char>, height: Seq<char>, width: Seq<char>)
    requires
        is_number(kind),
        is_number(height),
        is_number(width),
    ensures
        scan(report_text(kind, height, width)) == Scan::Done(
            decimal(kind),
            decimal(height),
            decimal(width),
        ),
{
    let head = seq![ESC, '['];
    lemma_scan_push(Seq::empty(), ESC);
    lemma_scan_push(Seq::empty().push(ESC), '[');
    assert(head =~= Seq::empty().push(ESC).push('['));
    lemma_scan_number(head, kind);
    let to_kind = head + kind;
    lemma_scan_push(to_kind, ';');
    let to_height = to_kind.push(';');
    assert(to_height =~= to_kind + seq![';']);
    lemma_scan_number(to_height, height);
    lemma_scan_push(to_height + height, ';');
    let to_width = (to_height + height).push(';');
    assert(to_width =~= to_height + height + seq![';']);
    lemma_scan_number(to_width, width);
    lemma_scan_push(to_width + width, 't');
    assert((to_width + width).push('t') =~= to_width + width + seq!['t']);
}

spec fn number_of(text: Seq<char>, value: nat) -> bool {
    is_number(text) && decimal(text) == value
}

/// What a text that has been read so far looks like, with the numbers in it.
spec fn looks_like(
    text: Seq<char>,
    seen: Scan,
    a: Seq<char>,
    b: Seq<char>,
    c: Seq<char>,
) -> bool {
    let head = seq![ESC, '['];
    match seen {
        Scan::Start => text == Seq::<char>::empty(),
        Scan::Escape => text == seq![ESC],
        Scan::Bracket => text == head,
        Scan::Kind(k) => number_of(a, k) && text == head + a,
        Scan::KindEnd(k) => number_of(a, k) && text == head + a + seq![';'],
        Scan::Height(k, h) => number_of(a, k) && number_of(b, h) && text == head + a + seq![';']
            + b,
        Scan::HeightEnd(k, h) => number_of(a, k) && number_of(b, h) && text == head + a + seq![';']
            + b + seq![';'],
        Scan::Width(k, h, w) => number_of(a, k) && number_of(b, h) && number_of(c, w) && text
            == head + a + seq![';'] + b + seq![';'] + c,
        Scan::Done(k, h, w) => number_of(a, k) && number_of(b, h) && number_of(c, w) && text
            == report_text(a, b, c),
        Scan::Dead => true,
    }
}

proof fn lemma_number_push(number: Seq<char>, value: nat, c: char)
    requires
        number_of(number, value),
        is_digit(c),
    ensures
        number_of(number.push(c), 10 * value + digit_value(c)),
{
    assert(number.push(c).drop_last() =~= number);
}

proof fn lemma_number_single(c: char)
    requires
        is_digit(c),
    ensures
        number_of(seq![c], digit_value(c)),
{
    assert(seq![c].drop_last() =~= Seq::<char>::empty());
    assert(decimal(Seq::<char>::empty()) == 0);
}

proof fn lemma_looks_like(text: Seq<char>)
    ensures
        exists|a: Seq<char>, b: Seq<char>, c: Seq<char>|
            #[trigger] looks_like(text, scan(text), a, b, c),
    decreases text.len(),
{
    let seen = scan(text);
    if text.len() == 0 {
        assert(text =~= Seq::<char>::empty());
        assert(looks_like(text, seen, text, text, text));
    } else {
        let front = text.drop_last();
        let last = text.last();
        let head = seq![ESC, '['];
        lemma_looks_like(front);
        let (a, b, c) = choose|a: Seq<char>, b: Seq<char>, c: Seq<char>|
            #[trigger] looks_like(front, scan(front), a, b, c);
        assert(text =~= front + seq![last]);
        if is_digit(last) {
            lemma_number_single(last);
        }
        match scan(front) {
            Scan::Start | Scan::Escape => {
                assert(text =~= seq![last] || text =~= seq![ESC, last]);
                assert(looks_like(text, seen, a, b, c));
            },
            Scan::Bracket => {
                assert(looks_like(text, seen, seq![last], b, c));
            },
            Scan::Kind(k) => {
                if is_digit(last) {
                    lemma_number_push(a, k, last);
                    assert(text =~= head + a.push(last));
                    assert(looks_like(text, seen, a.push(last), b, c));
                } else {
                    assert(looks_like(text, seen, a, b, c));
                }
            },
            Scan::KindEnd(_) => {
                assert(looks_like(text, seen, a, seq![last], c));
            },
            Scan::Height(k, h) => {
                if is_digit(last) {
                    lemma_number_push(b, h, last);
                    assert(text =~= head + a + seq![';'] + b.push(last));
                    assert(looks_like(text, seen, a, b.push(last), c));
                } else {
                    assert(looks_like(text, seen, a, b, c));
                }
            },
            Scan::HeightEnd(_, _) => {
                assert(looks_like(text, seen, a, b, seq![last]));
            },
            Scan::Width(k, h, w) => {
                if is_digit(last) {
                    lemma_number_push(c, w, last);
                    assert(text =~= head + a + seq![';'] + b + seq![';'] + c.push(last));
                    assert(looks_like(text, seen, a, b, c.push(last)));
                } else {
                    assert(looks_like(text, seen, a, b, c));
                }
            },
            Scan::Done(_, _, _) | Scan::Dead => {
                assert(looks_like(text, seen, a, b, c));
            },
        }
    }
}

/// The scan tells reports apart, and finds their numbers.
proof fn lemma_scan_is_report(text: Seq<char>, kind: nat, height: nat, width: nat)
    ensures
        is_report(text, kind, height, width) <==> scan(text) == Scan::Done(kind, height, width),
{
    lemma_looks_like(text);
    let (a, b, c) = choose|a: Seq<char>, b: Seq<char>, c: Seq<char>|
        #[trigger] looks_like(text, scan(text), a, b, c);
    if is_report(text, kind, height, width) {
        let (k, h, w) = choose|k: Seq<char>, h: Seq<char>, w: Seq<char>|
            {
                &&& is_number(k) && is_number(h) && is_number(w)
                &&& decimal(k) == kind && decimal(h) == height && decimal(w) == width
                &&& text == #[trigger] report_text(k, h, w)
            };
        lemma_scan_report(k, h, w);
    }
}

/// A text that is still open can be completed.
proof fn lemma_open_is_prefix(text: Seq<char>)
    requires
        scan(text).is_open(),
    ensures
        is_report_prefix(text),
    decreases
            match scan(text) {
                Scan::Start => 8nat,
                Scan::Escape => 7,
                Scan::Bracket => 6,
                Scan::Kind(_) => 5,
                Scan::KindEnd(_) => 4,
                Scan::Height(_, _) => 3,
                Scan::HeightEnd(_, _) => 2,
                _ => 1,
            },
{
    let next = match scan(text) {
        Scan::Start => ESC,
        Scan::Escape => '[',
        Scan::Bracket => '0',
        Scan::Kind(_) => ';',
        Scan::KindEnd(_) => '0',
        Scan::Height(_, _) => ';',
        Scan::HeightEnd(_, _) => '0',
        _ => 't',
    };
    lemma_scan_push(text, next);
    if scan(text) is Width {
        if let Scan::Done(k, h, w) = scan(text.push(next)) {
            lemma_scan_is_report(text.push(next), k, h, w);
            assert(text.push(next) =~= text + seq![next]);
            assert(is_report(text + seq![next], k, h, w));
        }
    } else {
        lemma_open_is_prefix(text.push(next));
        let (rest, k, h, w) = choose|rest: Seq<char>, k: nat, h: nat, w: nat|
            rest.len() > 0 && #[trigger] is_report(text.push(next) + rest, k, h, w);
        assert(text.push(next) + rest =~= text + (seq![next] + rest));
        assert(is_report(text + (seq![next] + rest), k, h, w));
    }
}

/// The scan tells the beginnings of reports apart.
proof fn lemma_scan_is_prefix(text: Seq<char>)
    ensures
        is_report_prefix(text) <==> scan(text).is_open(),
{
    if scan(text).is_open() {
        lemma_open_is_prefix(text);
    }
    if is_report_prefix(text) {
        let (rest, k, h, w) = choose|rest: Seq<char>, k: nat, h: nat, w: nat|
            rest.len() > 0 && #[trigger] is_report(text + rest, k, h, w);
        lemma_scan_is_report(text + rest, k, h, w);
        if !scan(text).is_open() {
            lemma_scan_beyond(text, rest);
        }
    }
}

/// How a text reads is decided by the scan.
proof fn lemma_scan_decides(text: Seq<char>)
    ensures
        scan(text).is_open() ==> reading(text) == Reading::Incomplete,
        scan(text) is Dead ==> reading(text) == Reading::Corrupted,
        scan(text) matches Scan::Done(k, h, w) ==> reading(text) == match told_by(k, h, w) {
            Some(pixel_dimensions) => Reading::Complete(pixel_dimensions),
            None => Reading::Corrupted,
        },
{
    lemma_scan_is_prefix(text);
    assert forall|pixel_dimensions: PixelDimensions| #[trigger]
        tells(text, pixel_dimensions) implies scan(text) matches Scan::Done(k, h, w) && told_by(
        k,
        h,
        w,
    ) == Some(pixel_dimensions) by {
        lemma_told_is_scanned(text, pixel_dimensions);
    }
    if let Scan::Done(k, h, w) = scan(text) {
        lemma_scan_is_report(text, k, h, w);
        if let Some(pixel_dimensions) = told_by(k, h, w) {
            assert(tells(text, pixel_dimensions));
        }
    }
}

/// A number that is being read, as far as it fits: `None` once it is too large.
type Number = Option<usize>;

spec fn stands_for(number: Number, value: nat) -> bool {
    match number {
        Some(n) => n == value,
        None => value > usize::MAX,
    }
}

fn append_digit(number: Number, c: char) -> (res: Number)
    requires
        is_digit(c),
    ensures
        forall|value: nat| #[trigger]
            stands_for(number, value) ==> stands_for(res, 10 * value + digit_value(c)),
{
    let digit: usize = c as usize - '0' as usize;
    match number {
        Some(n) => match n.checked_mul(10) {
            Some(tens) => tens.checked_add(digit),
            None => None,
        },
        None => None,
    }
}

/// Where in a report the reader stands.
#[derive(Debug, Clone, Copy, PartialEq, Eq)]
enum Stage {
    Start,
    Escape,
    Bracket,
    Kind(Number),
    KindEnd(Number),
    Height(Number, Number),
    HeightEnd(Number, Number),
    Width(Number, Number, Number),
}

impl Stage {
    spec fn follows(self, seen: Scan) -> bool {
        match (self, seen) {
            (Stage::Start, Scan::Start) => true,
            (Stage::Escape, Scan::Escape) => true,
            (Stage::Bracket, Scan::Bracket) => true,
            (Stage::Kind(a), Scan::Kind(k)) => stands_for(a, k),
            (Stage::KindEnd(a), Scan::KindEnd(k)) => stands_for(a, k),
            (Stage::Height(a, b), Scan::Height(k, h)) => stands_for(a, k) && stands_for(b, h),
            (Stage::HeightEnd(a, b), Scan::HeightEnd(k, h)) => stands_for(a, k) && stands_for(b, h),
            (Stage::Width(a, b, c), Scan::Width(k, h, w)) => stands_for(a, k) && stands_for(b, h)
                && stands_for(c, w),
            _ => false,
        }
    }

    /// Where the reader stands after one more character that belongs there
    /// and does not end the report.
    fn next(self, c: char) -> (res: Option<Stage>)
        ensures
            forall|seen: Scan| #[trigger]
                self.follows(seen) ==> match res {
                    Some(stage) => stage.follows(seen.step(c)),
                    None => !seen.step(c).is_open(),
                },
    {
        assert(stands_for(Some(0), 0));
        let digit = '0' <= c && c <= '9';
        match self {
            Stage::Start if c == ESC => Some(Stage::Escape),
            Stage::Escape if c == '[' => Some(Stage::Bracket),
            Stage::Bracket if digit => Some(Stage::Kind(append_digit(Some(0), c))),
            Stage::Kind(kind) if digit => Some(Stage::Kind(append_digit(kind, c))),
            Stage::Kind(kind) if c == ';' => Some(Stage::KindEnd(kind)),
            Stage::KindEnd(kind) if digit => Some(Stage::Height(kind, append_digit(Some(0), c))),
            Stage::Height(kind, height) if digit => Some(
                Stage::Height(kind, append_digit(height, c)),
            ),
            Stage::Height(kind, height) if c == ';' => Some(Stage::HeightEnd(kind, height)),
            Stage::HeightEnd(kind, height) if digit => Some(
                Stage::Width(kind, height, append_digit(Some(0), c)),
            ),
            Stage::Width(kind, height, width) if digit => Some(
                Stage::Width(kind, height, append_digit(width, c)),
            ),
            _ => None,
        }
    }
}

/// What the numbers of a report tell.
fn tell(kind: Number, height: Number, width: Number) -> (res: Option<PixelDimensions>)
    ensures
        forall|k: nat, h: nat, w: nat|
            #![trigger told_by(k, h, w)]
            stands_for(kind, k) && stands_for(height, h) && stands_for(width, w) ==> res == told_by(
                k,
                h,
                w,
            ),
{
    match (kind, height, width) {
        (Some(kind), Some(height), Some(width)) => {
            let size = SizeInPixels { height, width };
            if kind == TEXT_AREA {
                Some(PixelDimensions { text_area_size: Some(size), character_cell_size: None })
            } else if kind == CHARACTER_CELL {
                Some(PixelDimensions { text_area_size: None, character_cell_size: Some(size) })
            } else {
                None
            }
        },
        _ => None,
    }
}

/// Reads reports character by character.
pub struct ReportReader {
    stage: Stage,
    text: Ghost<Seq<char>>,
}

impl View for ReportReader {
    type V = Seq<char>;

    /// The beginning of a report that was read so far.
    closed spec fn view(&self) -> Seq<char> {
        self.text@
    }
}

impl ReportReader {
    #[verifier::type_invariant]
    spec fn inv(self) -> bool {
        self.stage.follows(scan(self.text@))
    }

    /// A reader that has read nothing.
    pub fn new() -> (reader: Self)
        ensures
            reader@ == Seq::<char>::empty(),
    {
        ReportReader { stage: Stage::Start, text: Ghost(Seq::empty()) }
    }

    /// Reads one more character. After a whole report, or after a character
    /// that no report has there, the reader is ready for the next one.
    pub fn read(&mut self, c: char) -> (res: Reading)
        ensures
            res == reading(old(self)@.push(c)),
            final(self)@ == if res == Reading::Incomplete {
                old(self)@.push(c)
            } else {
                Seq::empty()
            },
    {
        proof {
            use_type_invariant(&*self);
            lemma_scan_push(self.text@, c);
            lemma_scan_decides(self.text@.push(c));
        }
        let next = self.stage.next(c);
        if let Some(stage) = next {
            *self = ReportReader { stage, text: Ghost(self.text@.push(c)) };
            return Reading::Incomplete;
        }
        let told = match self.stage {
            Stage::Width(kind, height, width) if c == 't' => tell(kind, height, width),
            _ => None,
        };
        *self = ReportReader::new();
        match told {
            Some(pixel_dimensions) => Reading::Complete(pixel_dimensions),
            None => Reading::Corrupted,
        }
    }
}

/// A report reads as what its numbers tell, and as incomplete up to its last
/// character.
pub proof fn law_report_is_read(kind: Seq<char>, height: Seq<char>, width: Seq<char>)
    requires
        is_number(kind),
        is_number(height),
        is_number(width),
    ensures
        reading(report_text(kind, height, width)) == match told_by(
            decimal(kind),
            decimal(height),
            decimal(width),
        ) {
            Some(pixel_dimensions) => Reading::Complete(pixel_dimensions),
            None => Reading::Corrupted,
        },
        forall|n: int|
            0 <= n < report_text(kind, height, width).len() ==> #[trigger] reading(
                report_text(kind, height, width).take(n),
            ) == Reading::Incomplete,
{
    let text = report_text(kind, height, width);
    lemma_scan_report(kind, height, width);
    lemma_scan_decides(text);
    assert forall|n: int| 0 <= n < text.len() implies #[trigger] reading(text.take(n))
        == Reading::Incomplete by {
        assert(text.take(n) + text.skip(n) =~= text);
        lemma_scan_is_report(text, decimal(kind), decimal(height), decimal(width));
        assert(is_report(
            text.take(n) + text.skip(n),
            decimal(kind),
            decimal(height),
            decimal(width),
        ));
    }
}

/// A text tells one thing at most.
pub proof fn law_report_tells_one_thing(
    text: Seq<char>,
    one: PixelDimensions,
    other: PixelDimensions,
)
    requires
        tells(text, one),
        tells(text, other),
    ensures
        one == other,
        reading(text) == Reading::Complete(one),
{
    lemma_scan_decides(text);
    lemma_told_is_scanned(text, one);
    lemma_told_is_scanned(text, other);
}

proof fn lemma_told_is_scanned(text: Seq<char>, pixel_dimensions: PixelDimensions)
    requires
        tells(text, pixel_dimensions),
    ensures
        scan(text) matches Scan::Done(k, h, w) && told_by(k, h, w) == Some(pixel_dimensions),
{
    let (k, h, w) = choose|k: nat, h: nat, w: nat|
        #[trigger] is_report(text, k, h, w) && told_by(k, h, w) == Some(pixel_dimensions);
    lemma_scan_is_report(text, k, h, w);
}

/// The escape character in the middle of a report corrupts it.
pub proof fn law_escape_corrupts_a_report(text: Seq<char>)
    requires
        text.len() > 0,
    ensures
        reading(text.push(ESC)) == Reading::Corrupted,
{
    lemma_scan_push(text, ESC);
    lemma_looks_like(text);
    let (a, b, c) = choose|a: Seq<char>, b: Seq<char>, c: Seq<char>|
        #[trigger] looks_like(text, scan(text), a, b, c);
    lemma_scan_decides(text.push(ESC));
}

/// A corrupted text is not mended by what follows it, and nothing belongs to a
/// report after its end.
pub proof fn law_reading_is_final(text: Seq<char>, rest: Seq<char>)
    requires
        reading(text) != Reading::Incomplete,
        rest.len() > 0,
    ensures
        reading(text + rest) == Reading::Corrupted,
{
    lemma_scan_decides(text);
    lemma_scan_beyond(text, rest);
    lemma_scan_decides(text + rest);
}

/// Nothing at all is the beginning of any report.
pub proof fn law_nothing_is_incomplete()
    ensures
        reading(Seq::<char>::empty()) == Reading::Incomplete,
{
    lemma_scan_decides(Seq::<char>::empty());
}

/// The beginning of a beginning of a report is one too.
pub proof fn law_beginnings_begin_a_report(text: Seq<char>, rest: Seq<char>)
    requires
        reading(text + rest) == Reading::Incomplete,
    ensures
        reading(text) == Reading::Incomplete,
{
    let (tail, k, h, w) = choose|tail: Seq<char>, k: nat, h: nat, w: nat|
        tail.len() > 0 && #[trigger] is_report(text + rest + tail, k, h, w);
    assert(text + rest + tail =~= text + (rest + tail));
    assert(is_report(text + (rest + tail), k, h, w));
}

/// Only the escape character begins a report.
pub proof fn law_report_begins_with_escape(text: Seq<char>)
    requires
        text.len() > 0,
        text[0] != ESC,
    ensures
        reading(text) == Reading::Corrupted,
{
    let first = text.take(1);
    lemma_scan_push(Seq::empty(), text[0]);
    assert(first =~= Seq::empty().push(text[0]));
    assert(first + text.skip(1) =~= text);
    if text.len() > 1 {
        lemma_scan_beyond(first, text.skip(1));
    } else {
        assert(first =~= text);
    }
    lemma_scan_decides(text);
}

/// A number is one decimal digit or more, and nothing else.
pub proof fn law_numbers_are_decimal_digits(text: Seq<char>)
    ensures
        is_number(text) <==> text.len() > 0 && forall|i: int|
            0 <= i < text.len() ==> '0' as int <= (#[trigger] text[i]) as int <= '9' as int,
{
    if text.len() > 0 && forall|i: int|
        0 <= i < text.len() ==> '0' as int <= (#[trigger] text[i]) as int <= '9' as int {
        assert forall|i: int| 0 <= i < text.len() implies is_digit(#[trigger] text[i]) by {}
    }
    if is_number(text) {
        assert forall|i: int| 0 <= i < text.len() implies '0' as int <= (
        #[trigger] text[i]) as int <= '9' as int by {
            assert(is_digit(text[i]));
        }
    }
}

/// The value of a decimal number is positional: a digit alone counts for
/// itself, and what stands before other digits counts for ten to the power of
/// their number.
pub proof fn law_decimal_is_positional(front: Seq<char>, back: Seq<char>, digit: char)
    requires
        '0' as int <= digit as int <= '9' as int,
    ensures
        decimal(seq![digit]) == digit as int - 48,
        decimal(front + back) == decimal(front) * pow(10, back.len()) + decimal(back),
    decreases back.len(),
{
    assert(seq![digit].drop_last() =~= Seq::<char>::empty());
    assert(decimal(Seq::<char>::empty()) == 0);
    reveal(pow);
    if back.len() == 0 {
        assert(front + back =~= front);
    } else {
        let shorter = back.drop_last();
        law_decimal_is_positional(front, shorter, digit);
        assert((front + back).drop_last() =~= front + shorter);
        let f = decimal(front) as int;
        let p = pow(10, shorter.len());
        assert(pow(10, back.len()) == 10 * p);
        assert(10 * (f * p) == f * (10 * p)) by (nonlinear_arith);
    }
}

/// The shape of a report, character by character.
proof fn lemma_shape_is_report(kind: Seq<char>, height: Seq<char>, width: Seq<char>)
    ensures
        seq!['\u{1b}', '['] + kind + seq![';'] + height + seq![';'] + width + seq!['t']
            == report_text(kind, height, width),
{
}

/// A report of the text area's size is read as one, height first and width
/// second, and up to its last character as the beginning of one.
pub proof fn law_text_area_report_is_read(
    text: Seq<char>,
    kind: Seq<char>,
    height: Seq<char>,
    width: Seq<char>,
)
    requires
        is_number(kind),
        is_number(height),
        is_number(width),
        decimal(kind) == 4,
        decimal(height) <= usize::MAX,
        decimal(width) <= usize::MAX,
        text == seq!['\u{1b}', '['] + kind + seq![';'] + height + seq![';'] + width + seq!['t'],
    ensures
        reading(text) matches Reading::Complete(pixel_dimensions) && {
            &&& pixel_dimensions.text_area_size matches Some(size) && size.height == decimal(height)
                && size.width == decimal(width)
            &&& pixel_dimensions.character_cell_size is None
        },
        forall|n: int|
            0 <= n < text.len() ==> #[trigger] reading(text.take(n)) == Reading::Incomplete,
{
    lemma_shape_is_report(kind, height, width);
    law_report_is_read(kind, height, width);
}

/// A report of the size of a character cell is read as one, height first and
/// width second, and up to its last character as the beginning of one.
pub proof fn law_character_cell_report_is_read(
    text: Seq<char>,
    kind: Seq<char>,
    height: Seq<char>,
    width: Seq<char>,
)
    requires
        is_number(kind),
        is_number(height),
        is_number(width),
        decimal(kind) == 6,
        decimal(height) <= usize::MAX,
        decimal(width) <= usize::MAX,
        text == seq!['\u{1b}', '['] + kind + seq![';'] + height + seq![';'] + width + seq!['t'],
    ensures
        reading(text) matches Reading::Complete(pixel_dimensions) && {
            &&& pixel_dimensions.character_cell_size matches Some(size) && size.height == decimal(
                height,
            ) && size.width == decimal(width)
            &&& pixel_dimensions.text_area_size is None
        },
        forall|n: int|
            0 <= n < text.len() ==> #[trigger] reading(text.take(n)) == Reading::Incomplete,
{
    lemma_shape_is_report(kind, height, width);
    law_report_is_read(kind, height, width);
}

/// A text of the shape of a report that is of another kind, or holds a size
/// that is too large, is corrupted at its last character and not before.
pub proof fn law_other_reports_are_corrupted(
    text: Seq<char>,
    kind: Seq<char>,
    height: Seq<char>,
    width: Seq<char>,
)
    requires
        is_number(kind),
        is_number(height),
        is_number(width),
        (decimal(kind) != 4 && decimal(kind) != 6) || decimal(height) > usize::MAX || decimal(width)
            > usize::MAX,
        text == seq!['\u{1b}', '['] + kind + seq![';'] + height + seq![';'] + width + seq!['t'],
    ensures
        reading(text) == Reading::Corrupted,
        forall|n: int|
            0 <= n < text.len() ==> #[trigger] reading(text.take(n)) == Reading::Incomplete,
{
    lemma_shape_is_report(kind, height, width);
    law_report_is_read(kind, height, width);
}

/// Whatever is read as a report has the shape of one, and the sizes read are
/// the numbers in it, height first and width second.
pub proof fn law_what_is_read_was_reported(text: Seq<char>)
    ensures
        reading(text) matches Reading::Complete(pixel_dimensions) ==> exists|
            kind: Seq<char>,
            height: Seq<char>,
            width: Seq<char>,
        |
            {
                &&& #[trigger] is_number(kind)
                &&& #[trigger] is_number(height)
                &&& #[trigger] is_number(width)
                &&& text == seq!['\u{1b}', '['] + kind + seq![';'] + height + seq![';'] + width
                    + seq!['t']
                &&& decimal(height) <= usize::MAX && decimal(width) <= usize::MAX
                &&& {
                    ||| decimal(kind) == 4 && pixel_dimensions == PixelDimensions {
                        text_area_size: Some(
                            SizeInPixels {
                                height: decimal(height) as usize,
                                width: decimal(width) as usize,
                            },
                        ),
                        character_cell_size: None,
                    }
                    ||| decimal(kind) == 6 && pixel_dimensions == PixelDimensions {
                        text_area_size: None,
                        character_cell_size: Some(
                            SizeInPixels {
                                height: decimal(height) as usize,
                                width: decimal(width) as usize,
                            },
                        ),
                    }
                }
            },
{
    lemma_scan_decides(text);
    lemma_looks_like(text);
    let (a, b, c) = choose|a: Seq<char>, b: Seq<char>, c: Seq<char>|
        #[trigger] looks_like(text, scan(text), a, b, c);
    if reading(text) is Complete {
        lemma_shape_is_report(a, b, c);
        assert(is_number(a) && is_number(b) && is_number(c));
    }
}

/// Whatever is read as the beginning of a report can be made one by characters
/// that follow.
pub proof fn law_what_is_incomplete_can_be_completed(text: Seq<char>)
    ensures
        reading(text) == Reading::Incomplete ==> exists|
            rest: Seq<char>,
            kind: Seq<char>,
            height: Seq<char>,
            width: Seq<char>,
        |
            {
                &&& #[trigger] is_number(kind)
                &&& #[trigger] is_number(height)
                &&& #[trigger] is_number(width)
                &&& rest.len() > 0
                &&& #[trigger] (text + rest) == seq!['\u{1b}', '['] + kind + seq![';'] + height
                    + seq![';'] + width + seq!['t']
            },
{
    if reading(text) == Reading::Incomplete {
        let (rest, k, h, w) = choose|rest: Seq<char>, k: nat, h: nat, w: nat|
            rest.len() > 0 && #[trigger] is_report(text + rest, k, h, w);
        let (kind, height, width) = choose|kind: Seq<char>, height: Seq<char>, width: Seq<char>|
            {
                &&& is_number(kind) && is_number(height) && is_number(width)
                &&& decimal(kind) == k && decimal(height) == h && decimal(width) == w
                &&& text + rest == #[trigger] report_text(kind, height, width)
            };
        lemma_shape_is_report(kind, height, width);
        assert(is_number(kind) && is_number(height) && is_number(width));
    }
}

} // verus!
