//! The settings a simulation is built from.
use crate::fixed::{is_ratio, ONE, SIZE_LIMIT};
use vstd::prelude::*;
use vstd::string::{StringExecFns, StringSliceAdditionalSpecFns};

verus! {

/// How many outputs every driving network has: throttle, left, right,
/// brake.
pub const OUTPUT_COUNT: usize = 4;

/// Largest number of lanes and of rays.
pub const COUNT_LIMIT: usize = 0x7fff_ffff;

/// The byte of the comma that separates layer sizes.
pub const COMMA: u8 = 44;

/// The byte of the plus sign that may lead a layer size.
pub const PLUS: u8 = 43;

/// The byte of the digit zero.
pub const ZERO: u8 = 48;

/// What a configuration holds.
pub struct ConfigModel {
    pub lanes_count: usize,
    pub lane_index: usize,
    pub cars_count: usize,
    pub rays_count: usize,
    pub rays_length: i64,
    pub rays_spread: i64,
    pub hidden_layers: Seq<usize>,
    pub mutation_rate: i64,
}

/// A number of lanes a road can have.
pub open spec fn lanes_count_fits(value: usize) -> bool {
    1 <= value <= COUNT_LIMIT
}

/// A number of rays a sensor can have.
pub open spec fn rays_count_fits(value: usize) -> bool {
    value <= COUNT_LIMIT
}

/// A length a ray can have.
pub open spec fn rays_length_fits(value: i64) -> bool {
    0 <= value <= SIZE_LIMIT
}

/// A divisor of the half turn that gives a fan's spread.
pub open spec fn rays_spread_fits(value: i64) -> bool {
    1 <= value
}

/// The settings are ones a simulation can be built from.
pub open spec fn config_wf(config: ConfigModel) -> bool {
    &&& lanes_count_fits(config.lanes_count)
    &&& rays_count_fits(config.rays_count)
    &&& rays_length_fits(config.rays_length)
    &&& rays_spread_fits(config.rays_spread)
    &&& is_ratio(config.mutation_rate as int)
}

/// The settings a simulation starts with unless told otherwise.
pub open spec fn default_config() -> ConfigModel {
    ConfigModel {
        lanes_count: 3,
        lane_index: 1,
        cars_count: 100,
        rays_count: 5,
        rays_length: 120_000_000,
        rays_spread: 2_000_000,
        hidden_layers: seq![6usize],
        mutation_rate: 200_000,
    }
}

/// The sizes of all layers of the network: one input per ray, the hidden
/// layers, and the four outputs.
pub open spec fn neurons_counts_of(config: ConfigModel) -> Seq<usize> {
    seq![config.rays_count] + config.hidden_layers + seq![OUTPUT_COUNT]
}

/// The pieces that commas cut a text into. A text without a comma is one
/// piece; a comma at either end leaves an empty piece there.
pub open spec fn pieces(bytes: Seq<u8>) -> Seq<Seq<u8>>
    decreases bytes.len(),
{
    if bytes.len() == 0 {
        seq![Seq::<u8>::empty()]
    } else {
        let before = pieces(bytes.drop_last());
        if bytes.last() == COMMA {
            before.push(Seq::<u8>::empty())
        } else {
            before.drop_last().push(before.last().push(bytes.last()))
        }
    }
}

/// Every byte is a decimal digit.
pub open spec fn all_digits(bytes: Seq<u8>) -> bool {
    forall|i: int| 0 <= i < bytes.len() ==> ZERO <= #[trigger] bytes[i] <= ZERO + 9
}

/// The number that decimal digits spell.
pub open spec fn decimal_value(digits: Seq<u8>) -> nat
    decreases digits.len(),
{
    if digits.len() == 0 {
        0
    } else {
        decimal_value(digits.drop_last()) * 10 + (digits.last() - ZERO) as nat
    }
}

/// A piece without the plus sign that may lead it.
pub open spec fn unsigned_part(piece: Seq<u8>) -> Seq<u8> {
    if piece.len() > 0 && piece[0] == PLUS {
        piece.skip(1)
    } else {
        piece
    }
}

/// The layer size that a piece spells: one or more decimal digits, with
/// or without a leading plus sign, whose number fits in a `usize`. Nothing
/// else is a layer size: no spaces, no minus sign, not the empty piece.
pub open spec fn parse_count(piece: Seq<u8>) -> Option<usize> {
    let digits = unsigned_part(piece);
    if digits.len() > 0 && all_digits(digits) && decimal_value(digits) <= usize::MAX {
        Some(decimal_value(digits) as usize)
    } else {
        None
    }
}

/// The layer sizes among the pieces, in order; pieces that spell none are
/// passed over.
pub open spec fn parsed(pieces: Seq<Seq<u8>>) -> Seq<usize>
    decreases pieces.len(),
{
    if pieces.len() == 0 {
        Seq::<usize>::empty()
    } else {
        match parse_count(pieces.last()) {
            Some(count) => parsed(pieces.drop_last()).push(count),
            None => parsed(pieces.drop_last()),
        }
    }
}

/// The numbers that a comma-separated text spells, in order.
pub open spec fn counts_in(bytes: Seq<u8>) -> Seq<usize> {
    parsed(pieces(bytes))
}

/// Digits spell no less than any of their beginnings spell.
proof fn lemma_decimal_prefix(digits: Seq<u8>, upto: int)
    requires
        all_digits(digits),
        0 <= upto <= digits.len(),
    ensures
        decimal_value(digits.take(upto)) <= decimal_value(digits),
    decreases digits.len() - upto,
{
    if upto == digits.len() {
        assert(digits.take(upto) =~= digits);
    } else {
        lemma_decimal_prefix(digits, upto + 1);
        let longer = digits.take(upto + 1);
        assert(longer.drop_last() =~= digits.take(upto));
    }
}

/// The layer size that the bytes from `start` to `end` spell.
fn parse_piece(bytes: &[u8], start: usize, end: usize) -> (count: Option<usize>)
    requires
        start <= end <= bytes@.len(),
    ensures
        count == parse_count(bytes@.subrange(start as int, end as int)),
{
    let ghost piece = bytes@.subrange(start as int, end as int);
    let first: usize = if start < end && bytes[start] == PLUS {
        start + 1
    } else {
        start
    };
    let ghost digits = unsigned_part(piece);
    if first == end {
        return None;
    }
    let mut value: usize = 0;
    let mut i: usize = first;
    while i < end
        invariant
            start <= first <= i <= end <= bytes@.len(),
            first < end,
            digits == bytes@.subrange(first as int, end as int),
            digits == unsigned_part(bytes@.subrange(start as int, end as int)),
            all_digits(digits.take(i - first)),
            value == decimal_value(digits.take(i - first)),
        decreases end - i,
    {
        let byte = bytes[i];
        let ghost longer = digits.take(i - first + 1);
        proof {
            assert(longer.drop_last() =~= digits.take(i - first));
            assert(digits[i - first] == byte);
        }
        if byte < ZERO || byte > ZERO + 9 {
            return None;
        }
        let digit: usize = (byte - ZERO) as usize;
        let next = match value.checked_mul(10) {
            Some(tenfold) => tenfold.checked_add(digit),
            None => None,
        };
        match next {
            Some(v) => {
                value = v;
            },
            None => {
                proof {
                    if all_digits(digits) {
                        lemma_decimal_prefix(digits, i - first + 1);
                    }
                }
                return None;
            },
        }
        i += 1;
    }
    assert(digits.take(end - first) =~= digits);
    Some(value)
}

/// The numbers that a comma-separated text spells, in order: every piece
/// between commas that is a number (see `parse_count`).
pub fn parse_counts(bytes: &[u8]) -> (layers: Vec<usize>)
    ensures
        layers@ == counts_in(bytes@),
{
    let mut layers: Vec<usize> = Vec::new();
    let mut start: usize = 0;
    let mut i: usize = 0;
    let ghost mut done: Seq<Seq<u8>> = Seq::empty();
    proof {
        assert(bytes@.subrange(0, 0) =~= Seq::<u8>::empty());
    }
    while i < bytes.len()
        invariant
            start <= i <= bytes@.len(),
            pieces(bytes@.take(i as int)) == done.push(bytes@.subrange(start as int, i as int)),
            layers@ == parsed(done),
        decreases bytes@.len() - i,
    {
        let ghost so_far = bytes@.take(i as int);
        let ghost longer = bytes@.take(i + 1);
        proof {
            assert(longer.drop_last() =~= so_far);
        }
        if bytes[i] == COMMA {
            let count = parse_piece(bytes, start, i);
            let ghost piece = bytes@.subrange(start as int, i as int);
            proof {
                let grown = done.push(piece);
                assert(grown.drop_last() =~= done);
                assert(bytes@.subrange(i + 1, i + 1) =~= Seq::<u8>::empty());
            }
            match count {
                Some(value) => {
                    layers.push(value);
                },
                None => {},
            }
            proof {
                done = done.push(piece);
            }
            start = i + 1;
        } else {
            proof {
                let current = bytes@.subrange(start as int, i as int);
                assert(current.push(bytes@[i as int]) =~= bytes@.subrange(start as int, i + 1));
            }
        }
        i += 1;
    }
    let count = parse_piece(bytes, start, i);
    proof {
        let piece = bytes@.subrange(start as int, i as int);
        assert(bytes@.take(i as int) =~= bytes@);
        assert(done.push(piece).drop_last() =~= done);
    }
    match count {
        Some(value) => {
            layers.push(value);
        },
        None => {},
    }
    layers
}

/// The character of a decimal digit.
pub open spec fn digit_char(digit: nat) -> char {
    if digit == 0 {
        '0'
    } else if digit == 1 {
        '1'
    } else if digit == 2 {
        '2'
    } else if digit == 3 {
        '3'
    } else if digit == 4 {
        '4'
    } else if digit == 5 {
        '5'
    } else if digit == 6 {
        '6'
    } else if digit == 7 {
        '7'
    } else if digit == 8 {
        '8'
    } else {
        '9'
    }
}

/// A number written in decimal digits, without leading zeros.
pub open spec fn decimal_text(n: nat) -> Seq<char>
    decreases n,
{
    if n < 10 {
        seq![digit_char(n)]
    } else {
        decimal_text(n / 10).push(digit_char(n % 10))
    }
}

/// Layer sizes written as text: the numbers in decimal, with a comma
/// between one and the next.
pub open spec fn layers_text(layers: Seq<usize>) -> Seq<char>
    decreases layers.len(),
{
    if layers.len() == 0 {
        Seq::<char>::empty()
    } else if layers.len() == 1 {
        decimal_text(layers[0] as nat)
    } else {
        layers_text(layers.drop_last()).push(',') + decimal_text(layers.last() as nat)
    }
}

/// The bytes of a text of one-byte characters.
pub open spec fn text_bytes(text: Seq<char>) -> Seq<u8> {
    Seq::new(text.len(), |i: int| text[i] as u8)
}

/// No byte is a comma.
pub open spec fn no_comma(bytes: Seq<u8>) -> bool {
    forall|i: int| 0 <= i < bytes.len() ==> #[trigger] bytes[i] != COMMA
}

/// A number written in decimal is read back as that number: its text is
/// made of digits only, at least one, and they spell it.
pub proof fn lemma_decimal_text(n: nat)
    ensures
        decimal_text(n).len() > 0,
        all_digits(text_bytes(decimal_text(n))),
        no_comma(text_bytes(decimal_text(n))),
        decimal_value(text_bytes(decimal_text(n))) == n,
        vstd::utf8::is_ascii_chars(decimal_text(n)),
    decreases n,
{
    let text = decimal_text(n);
    let bytes = text_bytes(text);
    if n < 10 {
        assert(decimal_value(bytes.drop_last()) == 0);
    } else {
        lemma_decimal_text(n / 10);
        let shorter = text_bytes(decimal_text(n / 10));
        assert(bytes.drop_last() =~= shorter);
        assert forall|i: int| 0 <= i < bytes.len() implies ZERO <= #[trigger] bytes[i] <= ZERO + 9 by {
            if i < shorter.len() {
                assert(bytes[i] == shorter[i]);
            }
        }
    }
}

/// A text without a comma is one piece.
proof fn lemma_one_piece(bytes: Seq<u8>)
    requires
        no_comma(bytes),
    ensures
        pieces(bytes) == seq![bytes],
    decreases bytes.len(),
{
    if bytes.len() == 0 {
        assert(bytes =~= Seq::<u8>::empty());
    } else {
        let shorter = bytes.drop_last();
        lemma_one_piece(shorter);
        assert(shorter.push(bytes.last()) =~= bytes);
    }
}

/// After a comma, a text without a comma is one more piece.
proof fn lemma_one_more_piece(head: Seq<u8>, tail: Seq<u8>)
    requires
        no_comma(tail),
    ensures
        pieces(head.push(COMMA) + tail) == pieces(head).push(tail),
    decreases tail.len(),
{
    let bytes = head.push(COMMA) + tail;
    if tail.len() == 0 {
        assert(tail =~= Seq::<u8>::empty());
        assert(bytes.drop_last() =~= head);
    } else {
        let shorter = tail.drop_last();
        lemma_one_more_piece(head, shorter);
        assert(bytes.drop_last() =~= head.push(COMMA) + shorter);
        assert(shorter.push(tail.last()) =~= tail);
    }
}

/// Layer sizes written as text are read back as they were.
pub proof fn lemma_written_layers_are_read_back(layers: Seq<usize>)
    ensures
        counts_in(text_bytes(layers_text(layers))) == layers,
        vstd::utf8::is_ascii_chars(layers_text(layers)),
        counts_in(vstd::utf8::encode_utf8(layers_text(layers))) == layers,
    decreases layers.len(),
{
    let text = layers_text(layers);
    let bytes = text_bytes(text);
    if layers.len() == 0 {
        assert(bytes =~= Seq::<u8>::empty());
        assert(pieces(bytes) =~= seq![Seq::<u8>::empty()]);
        assert(pieces(bytes).drop_last() =~= Seq::<Seq<u8>>::empty());
        assert(parsed(pieces(bytes).drop_last()) =~= Seq::<usize>::empty());
        assert(counts_in(bytes) =~= layers);
    } else {
        let last = layers.last();
        let number = text_bytes(decimal_text(last as nat));
        lemma_decimal_text(last as nat);
        assert(parse_count(number) == Some(last));
        if layers.len() == 1 {
            assert(bytes =~= number);
            lemma_one_piece(number);
            let one = seq![number];
            assert(one.drop_last() =~= Seq::<Seq<u8>>::empty());
            assert(one.last() == number);
            assert(parsed(one.drop_last()) =~= Seq::<usize>::empty());
            assert(parsed(one) =~= seq![last]);
            assert(counts_in(bytes) =~= layers);
        } else {
            let front = layers.drop_last();
            lemma_written_layers_are_read_back(front);
            let head = text_bytes(layers_text(front));
            assert(bytes =~= head.push(COMMA) + number);
            lemma_one_more_piece(head, number);
            let all = pieces(head).push(number);
            assert(all.drop_last() =~= pieces(head));
            assert(all.last() == number);
            assert(parsed(all) == parsed(pieces(head)).push(last));
            assert(front.push(last) =~= layers);
        }
    }
    vstd::utf8::is_ascii_chars_encode_utf8(text);
    assert(vstd::utf8::encode_utf8(text) =~= bytes);
}

/// The characters of digits given the lowest first, written the highest
/// first.
spec fn written(digits: Seq<u8>, from: int) -> Seq<char>
    decreases digits.len() - from,
{
    if from >= digits.len() {
        Seq::<char>::empty()
    } else {
        written(digits, from + 1).push(digit_char(digits[from] as nat))
    }
}

/// The text of one decimal digit.
fn digit_text(digit: u8) -> (text: &'static str)
    requires
        digit < 10,
    ensures
        text@ == seq![digit_char(digit as nat)],
{
    proof {
        reveal_strlit("0");
        reveal_strlit("1");
        reveal_strlit("2");
        reveal_strlit("3");
        reveal_strlit("4");
        reveal_strlit("5");
        reveal_strlit("6");
        reveal_strlit("7");
        reveal_strlit("8");
        reveal_strlit("9");
    }
    let text = if digit == 0 {
        "0"
    } else if digit == 1 {
        "1"
    } else if digit == 2 {
        "2"
    } else if digit == 3 {
        "3"
    } else if digit == 4 {
        "4"
    } else if digit == 5 {
        "5"
    } else if digit == 6 {
        "6"
    } else if digit == 7 {
        "7"
    } else if digit == 8 {
        "8"
    } else {
        "9"
    };
    text
}

/// Appends a number in decimal digits to a text.
fn append_decimal(text: &mut String, n: usize)
    ensures
        final(text)@ == old(text)@ + decimal_text(n as nat),
{
    let mut digits: Vec<u8> = Vec::new();
    let mut m: usize = n;
    loop
        invariant_except_break
            forall|k: int| 0 <= k < digits@.len() ==> #[trigger] digits@[k] < 10,
            decimal_text(n as nat) == decimal_text(m as nat) + written(digits@, 0),
        ensures
            forall|k: int| 0 <= k < digits@.len() ==> #[trigger] digits@[k] < 10,
            decimal_text(n as nat) == written(digits@, 0),
        decreases m,
    {
        let digit: u8 = (m % 10) as u8;
        let ghost before = digits@;
        digits.push(digit);
        proof {
            lemma_written_push(before, digit, 0);
        }
        if m < 10 {
            break ;
        }
        m = m / 10;
    }
    let mut i: usize = digits.len();
    let ghost start = text@;
    proof {
        lemma_written_all(digits@, 0);
    }
    while i > 0
        invariant
            i <= digits@.len(),
            forall|k: int| 0 <= k < digits@.len() ==> #[trigger] digits@[k] < 10,
            text@ + written_up_to(digits@, i as int) == start + written(digits@, 0),
        decreases i,
    {
        i -= 1;
        text.append(digit_text(digits[i]));
    }
}

/// The characters of the digits below `upto`, given the lowest first,
/// written the highest first.
spec fn written_up_to(digits: Seq<u8>, upto: int) -> Seq<char>
    decreases upto,
{
    if upto <= 0 {
        Seq::<char>::empty()
    } else {
        seq![digit_char(digits[upto - 1] as nat)] + written_up_to(digits, upto - 1)
    }
}

/// Writing all digits is writing the digits below the length.
proof fn lemma_written_all(digits: Seq<u8>, from: int)
    requires
        0 <= from <= digits.len(),
    ensures
        written_up_to(digits, digits.len() as int) == written(digits, from) + written_up_to(digits, from),
    decreases digits.len() - from,
{
    if from < digits.len() {
        lemma_written_all(digits, from + 1);
    }
}

/// A digit more at the high end is written in front.
proof fn lemma_written_push(digits: Seq<u8>, digit: u8, from: int)
    requires
        0 <= from <= digits.len(),
    ensures
        written(digits.push(digit), from) == seq![digit_char(digit as nat)] + written(digits, from),
    decreases digits.len() - from,
{
    let longer = digits.push(digit);
    if from < digits.len() {
        lemma_written_push(digits, digit, from + 1);
    } else {
        assert(written(longer, from + 1) =~= Seq::<char>::empty());
    }
}

/// The settings of a simulation.
#[derive(Debug, Clone)]
pub struct Config {
    lanes_count: usize,
    lane_index: usize,
    cars_count: usize,
    rays_count: usize,
    rays_length: i64,
    rays_spread: i64,
    hidden_layers: Vec<usize>,
    mutation_rate: i64,
}

impl View for Config {
    type V = ConfigModel;

    closed spec fn view(&self) -> ConfigModel {
        ConfigModel {
            lanes_count: self.lanes_count,
            lane_index: self.lane_index,
            cars_count: self.cars_count,
            rays_count: self.rays_count,
            rays_length: self.rays_length,
            rays_spread: self.rays_spread,
            hidden_layers: self.hidden_layers@,
            mutation_rate: self.mutation_rate,
        }
    }
}

impl Default for Config {
    fn default() -> (config: Self)
        ensures
            config@ == default_config(),
            config.wf(),
    {
        let mut hidden_layers: Vec<usize> = Vec::new();
        hidden_layers.push(6);
        let config = Config {
            lanes_count: 3,
            lane_index: 1,
            cars_count: 100,
            rays_count: 5,
            rays_length: 120_000_000,
            rays_spread: 2_000_000,
            hidden_layers,
            mutation_rate: 200_000,
        };
        config
    }
}

impl Config {
    /// The settings are ones a simulation can be built from.
    pub open spec fn wf(&self) -> bool {
        config_wf(self@)
    }

    /// The given settings, if a simulation can be built from them.
    pub fn new(
        lanes_count: usize,
        lane_index: usize,
        cars_count: usize,
        rays_count: usize,
        rays_length: i64,
        rays_spread: i64,
        hidden_layers: Vec<usize>,
        mutation_rate: i64,
    ) -> (config: Option<Self>)
        ensures
            config is Some <==> config_wf(
                ConfigModel {
                    lanes_count,
                    lane_index,
                    cars_count,
                    rays_count,
                    rays_length,
                    rays_spread,
                    hidden_layers: hidden_layers@,
                    mutation_rate,
                },
            ),
            config matches Some(c) ==> c.wf() && c@ == (ConfigModel {
                lanes_count,
                lane_index,
                cars_count,
                rays_count,
                rays_length,
                rays_spread,
                hidden_layers: hidden_layers@,
                mutation_rate,
            }),
    {
        if 1 <= lanes_count && lanes_count <= COUNT_LIMIT && rays_count <= COUNT_LIMIT && 0
            <= rays_length && rays_length <= SIZE_LIMIT && 1 <= rays_spread && 0 <= mutation_rate
            && mutation_rate <= ONE {
            Some(
                Config {
                    lanes_count,
                    lane_index,
                    cars_count,
                    rays_count,
                    rays_length,
                    rays_spread,
                    hidden_layers,
                    mutation_rate,
                },
            )
        } else {
            None
        }
    }

    /// Sets the number of lanes, if the road can have that many: at least
    /// one. Says whether it did.
    pub fn set_lanes_count(&mut self, value: usize) -> (accepted: bool)
        ensures
            accepted == lanes_count_fits(value),
            accepted ==> final(self)@ == (ConfigModel { lanes_count: value, ..old(self)@ }),
            !accepted ==> final(self)@ == old(self)@,
    {
        if 1 <= value && value <= COUNT_LIMIT {
            self.lanes_count = value;
            true
        } else {
            false
        }
    }

    /// Sets the lane the agents start in.
    pub fn set_lane_index(&mut self, value: usize)
        ensures
            final(self)@ == (ConfigModel { lane_index: value, ..old(self)@ }),
    {
        self.lane_index = value
    }

    /// Sets the number of agents.
    pub fn set_cars_count(&mut self, value: usize)
        ensures
            final(self)@ == (ConfigModel { cars_count: value, ..old(self)@ }),
    {
        self.cars_count = value;
    }

    /// Sets the number of rays, if a sensor can have that many. Says
    /// whether it did.
    pub fn set_rays_count(&mut self, value: usize) -> (accepted: bool)
        ensures
            accepted == rays_count_fits(value),
            accepted ==> final(self)@ == (ConfigModel { rays_count: value, ..old(self)@ }),
            !accepted ==> final(self)@ == old(self)@,
    {
        if value <= COUNT_LIMIT {
            self.rays_count = value;
            true
        } else {
            false
        }
    }

    /// Sets the length of the rays, if a ray can be that long. Says
    /// whether it did.
    pub fn set_rays_length(&mut self, value: i64) -> (accepted: bool)
        ensures
            accepted == rays_length_fits(value),
            accepted ==> final(self)@ == (ConfigModel { rays_length: value, ..old(self)@ }),
            !accepted ==> final(self)@ == old(self)@,
    {
        if 0 <= value && value <= SIZE_LIMIT {
            self.rays_length = value;
            true
        } else {
            false
        }
    }

    /// Sets the divisor of the half turn that gives the fan's spread, if
    /// it is positive. Says whether it did.
    pub fn set_rays_spread(&mut self, value: i64) -> (accepted: bool)
        ensures
            accepted == rays_spread_fits(value),
            accepted ==> final(self)@ == (ConfigModel { rays_spread: value, ..old(self)@ }),
            !accepted ==> final(self)@ == old(self)@,
    {
        if 1 <= value {
            self.rays_spread = value;
            true
        } else {
            false
        }
    }

    /// Sets the hidden layers from a comma-separated text such as
    /// `"6,4"`. Pieces that spell no size are passed over; if none is
    /// left, the setting stays as it was. Says whether it set anything.
    pub fn parse_and_set_hidden_layers(&mut self, values: &str) -> (accepted: bool)
        ensures
            accepted == (counts_in(values.spec_bytes()).len() > 0),
            accepted ==> final(self)@ == (ConfigModel {
                hidden_layers: counts_in(values.spec_bytes()),
                ..old(self)@
            }),
            !accepted ==> final(self)@ == old(self)@,
    {
        let hidden_layers = parse_counts(values.as_bytes());
        if hidden_layers.len() == 0 {
            return false;
        }
        self.hidden_layers = hidden_layers;
        true
    }

    /// Sets the hidden layers.
    pub fn set_hidden_layers(&mut self, values: Vec<usize>)
        ensures
            final(self)@ == (ConfigModel { hidden_layers: values@, ..old(self)@ }),
    {
        self.hidden_layers = values;
    }

    /// Sets the mutation rate, if it is between 0.0 and 1.0. Says whether
    /// it did.
    pub fn set_mutation_rate(&mut self, value: i64) -> (accepted: bool)
        ensures
            accepted == is_ratio(value as int),
            accepted ==> final(self)@ == (ConfigModel { mutation_rate: value, ..old(self)@ }),
            !accepted ==> final(self)@ == old(self)@,
    {
        if 0 <= value && value <= ONE {
            self.mutation_rate = value;
            true
        } else {
            false
        }
    }

    /// The hidden layers as text: the sizes in decimal, separated by
    /// commas.
    pub fn hidden_layers(&self) -> (text: String)
        ensures
            text@ == layers_text(self@.hidden_layers),
            counts_in(vstd::utf8::encode_utf8(text@)) == self@.hidden_layers,
    {
        proof {
            lemma_written_layers_are_read_back(self@.hidden_layers);
        }
        let mut text = String::new();
        let mut i: usize = 0;
        while i < self.hidden_layers.len()
            invariant
                i <= self.hidden_layers@.len(),
                text@ == layers_text(self.hidden_layers@.take(i as int)),
            decreases self.hidden_layers@.len() - i,
        {
            let ghost before = self.hidden_layers@.take(i as int);
            let ghost longer = self.hidden_layers@.take(i + 1);
            proof {
                assert(longer.drop_last() =~= before);
                reveal_strlit(",");
            }
            if i > 0 {
                text.append(",");
            }
            append_decimal(&mut text, self.hidden_layers[i]);
            i += 1;
        }
        assert(self.hidden_layers@.take(i as int) =~= self.hidden_layers@);
        text
    }

    /// The sizes of all layers of the network: one input per ray, the
    /// hidden layers, and the four outputs.
    pub fn neurons_counts(&self) -> (counts: Vec<usize>)
        ensures
            counts@ == neurons_counts_of(self@),
    {
        let mut counts: Vec<usize> = Vec::new();
        counts.push(self.rays_count);
        let mut i: usize = 0;
        while i < self.hidden_layers.len()
            invariant
                i <= self.hidden_layers@.len(),
                counts@ == seq![self.rays_count] + self.hidden_layers@.take(i as int),
            decreases self.hidden_layers@.len() - i,
        {
            counts.push(self.hidden_layers[i]);
            i += 1;
        }
        counts.push(OUTPUT_COUNT);
        counts
    }

    /// A copy of the settings.
    pub fn duplicate(&self) -> (copy: Self)
        ensures
            copy@ == self@,
    {
        let mut hidden_layers: Vec<usize> = Vec::new();
        let mut i: usize = 0;
        while i < self.hidden_layers.len()
            invariant
                i <= self.hidden_layers@.len(),
                hidden_layers@ == self.hidden_layers@.take(i as int),
            decreases self.hidden_layers@.len() - i,
        {
            hidden_layers.push(self.hidden_layers[i]);
            i += 1;
        }
        assert(self.hidden_layers@.take(i as int) =~= self.hidden_layers@);
        Config {
            lanes_count: self.lanes_count,
            lane_index: self.lane_index,
            cars_count: self.cars_count,
            rays_count: self.rays_count,
            rays_length: self.rays_length,
            rays_spread: self.rays_spread,
            hidden_layers,
            mutation_rate: self.mutation_rate,
        }
    }

    /// How many lanes the road has.
    pub fn lanes_count(&self) -> (value: usize)
        ensures
            value == self@.lanes_count,
    {
        self.lanes_count
    }

    /// The lane the agents start in.
    pub fn lane_index(&self) -> (value: usize)
        ensures
            value == self@.lane_index,
    {
        self.lane_index
    }

    /// How many agents there are.
    pub fn cars_count(&self) -> (value: usize)
        ensures
            value == self@.cars_count,
    {
        self.cars_count
    }

    /// How many rays a sensor has.
    pub fn rays_count(&self) -> (value: usize)
        ensures
            value == self@.rays_count,
    {
        self.rays_count
    }

    /// How long the rays are.
    pub fn rays_length(&self) -> (value: i64)
        ensures
            value == self@.rays_length,
    {
        self.rays_length
    }

    /// The divisor of the half turn that gives the fan's spread.
    pub fn rays_spread(&self) -> (value: i64)
        ensures
            value == self@.rays_spread,
    {
        self.rays_spread
    }

    /// How far a child's weights move toward random values.
    pub fn mutation_rate(&self) -> (value: i64)
        ensures
            value == self@.mutation_rate,
    {
        self.mutation_rate
    }

    /// The sizes of the hidden layers.
    pub fn hidden_layer_sizes(&self) -> (values: &Vec<usize>)
        ensures
            values@ == self@.hidden_layers,
    {
        &self.hidden_layers
    }
}

} // verus!
