//! Binance 15 minute candles: candle time arithmetic, the klines request, and
//! turning a kline row into a cached candle with its price scaled to an integer.
use vstd::prelude::*;
use crate::json::JsonValue;
use crate::text::{
    decimal_digits, decimal_string, push_decimal, trim, trim_end_char, trim_end_matches_char,
    trim_str, to_owned_string, append_str,
};
use crate::types::CachedCandle;

verus! {

/// Length of one candle, in seconds.
pub const FIFTEEN_MINUTES_SECS: u64 = 900;

/// The most klines Binance hands out for one request.
pub const MAX_KLINES_PER_REQUEST: u16 = 1000;

/// `10^n`.
pub open spec fn pow10(n: nat) -> nat
    decreases n,
{
    if n == 0 {
        1
    } else {
        10 * pow10((n - 1) as nat)
    }
}

/// Why a candle request or a kline could not be turned into a cached candle.
#[derive(Debug, Clone, Copy, PartialEq, Eq, Structural)]
pub enum BinanceError {
    /// A start time in seconds does not fit in `u64` as milliseconds.
    TimestampOverflow,
    /// The end of the requested range does not fit in `u64` as milliseconds.
    EndTimestampOverflow,
    /// The system clock reads a time before the unix epoch.
    ClockBeforeEpoch,
    /// A kline has no unsigned integer open time in its first column.
    MissingOpenTime,
    /// A kline has no close price string in its fifth column.
    MissingClosePrice,
    /// A close price could not be scaled to an integer.
    Price(PriceError),
}

/// Why a decimal price could not be written as an integer of `10^-decimals` units.
#[derive(Debug, Clone, Copy, PartialEq, Eq, Structural)]
pub enum PriceError {
    /// `10^decimals` does not fit in `u64`.
    DecimalsTooLarge,
    /// The price is not a decimal number.
    InvalidPrice,
    /// The scaled price does not fit in a decimal.
    Overflow,
    /// The scaled price has a fractional part.
    NotRepresentable,
}

/// Rounds a unix timestamp down to the open time of its 15 minute candle.
pub fn normalize_to_15m(timestamp: u64) -> (open: u64)
    ensures
        open == timestamp - timestamp % 900,
        open <= timestamp,
        open % 900 == 0,
        timestamp - open < 900,
{
    timestamp - (timestamp % FIFTEEN_MINUTES_SECS)
}

/// Seconds since the unix epoch by the system clock (`SystemTime::now`), or
/// `None` where the clock reads a time before the epoch. Nothing is promised
/// of the value: it is the time.
#[verifier::external_body]
fn unix_time_secs() -> Option<u64> {
    match std::time::SystemTime::now().duration_since(std::time::UNIX_EPOCH) {
        Ok(elapsed) => Some(elapsed.as_secs()),
        Err(_) => None,
    }
}

/// The open time of the 15 minute candle current at a clock reading:
/// `now` seconds since the epoch, or `None` for a reading before it.
pub fn candle_open_time_from_clock(now: Option<u64>) -> (r: Result<u64, BinanceError>)
    ensures
        now matches Some(n) ==> r == Ok::<u64, BinanceError>((n - n % 900) as u64),
        now matches Some(n) ==> (r matches Ok(open) && open <= n && n - open < 900 && open % 900
            == 0),
        now is None ==> r == Err::<u64, BinanceError>(BinanceError::ClockBeforeEpoch),
{
    match now {
        Some(n) => Ok(normalize_to_15m(n)),
        None => Err(BinanceError::ClockBeforeEpoch),
    }
}

/// The open time of the current 15 minute candle, by the system clock.
pub fn latest_candle_open_time() -> (r: Result<u64, BinanceError>)
    ensures
        r matches Ok(open) ==> open % 900 == 0,
        r matches Err(e) ==> e == BinanceError::ClockBeforeEpoch,
{
    candle_open_time_from_clock(unix_time_secs())
}

/// A timestamp in seconds, in milliseconds.
pub fn seconds_to_millis(timestamp: u64) -> (r: Result<u64, BinanceError>)
    ensures
        timestamp * 1000 <= u64::MAX ==> r == Ok::<u64, BinanceError>((timestamp * 1000) as u64),
        timestamp * 1000 > u64::MAX ==> r == Err::<u64, BinanceError>(
            BinanceError::TimestampOverflow,
        ),
{
    match timestamp.checked_mul(1000) {
        Some(ms) => Ok(ms),
        None => Err(BinanceError::TimestampOverflow),
    }
}

/// Sign, 96-bit magnitude and scale of a `rust_decimal::Decimal`, whose value
/// is `magnitude / 10^scale`, negated where `negative` holds.
#[derive(Debug, Clone, Copy, PartialEq, Eq, Structural)]
pub struct DecimalParts {
    pub negative: bool,
    pub magnitude: u128,
    pub scale: u32,
}

impl DecimalParts {
    /// What every `Decimal` satisfies: a scale of at most 28 and a magnitude below `2^96`.
    pub open spec fn wf(&self) -> bool {
        &&& self.scale <= 28
        &&& self.magnitude < 0x1_0000_0000_0000_0000_0000_0000
    }
}

/// What `Decimal::from_str` gives for a text, by its parts.
pub uninterp spec fn decimal_from_str(s: Seq<char>) -> Option<DecimalParts>;

/// What `Decimal::checked_mul` gives for a decimal times an unsigned integer, by its parts.
pub uninterp spec fn decimal_mul_u64(d: DecimalParts, multiplier: u64) -> Option<DecimalParts>;

/// Parses a decimal number with `rust_decimal`'s `Decimal::from_str`. The
/// contract names the result, and states the `Decimal` representation
/// limits (scale at most 28, magnitude below `2^96`) that the crate documents.
#[verifier::external_body]
fn decimal_parse(s: &str) -> (r: Option<DecimalParts>)
    ensures
        r == decimal_from_str(s@),
        r matches Some(p) ==> p.wf(),
{
    match <rust_decimal::Decimal as std::str::FromStr>::from_str(s) {
        Ok(d) => Some(
            DecimalParts {
                negative: d.is_sign_negative(),
                magnitude: d.mantissa().unsigned_abs(),
                scale: d.scale(),
            },
        ),
        Err(_) => None,
    }
}

/// Multiplies a decimal by an unsigned integer with `rust_decimal`'s
/// `Decimal::checked_mul` (`None` on overflow). The contract names the result
/// and states what the crate's multiplication does when the exact product
/// fits in 96 bits: a zero factor gives positive zero of scale 0, otherwise the
/// product keeps the sign and scale with the magnitudes multiplied. Where the
/// product does not fit, the crate rounds to a smaller scale or overflows;
/// nothing is stated of that but the name and the representation limits.
#[verifier::external_body]
fn decimal_scale_by(d: DecimalParts, multiplier: u64) -> (r: Option<DecimalParts>)
    requires
        d.wf(),
    ensures
        r == decimal_mul_u64(d, multiplier),
        r matches Some(p) ==> p.wf(),
        (d.magnitude == 0 || multiplier == 0) ==> r == Some(
            DecimalParts { negative: false, magnitude: 0, scale: 0 },
        ),
        (d.magnitude > 0 && multiplier > 0 && d.magnitude * multiplier
            < 0x1_0000_0000_0000_0000_0000_0000) ==> r == Some(
            DecimalParts {
                negative: d.negative,
                magnitude: (d.magnitude * multiplier) as u128,
                scale: d.scale,
            },
        ),
{
    let mut value = rust_decimal::Decimal::from_i128_with_scale(d.magnitude as i128, d.scale);
    value.set_sign_negative(d.negative);
    match value.checked_mul(rust_decimal::Decimal::from(multiplier)) {
        Some(p) => Some(
            DecimalParts {
                negative: p.is_sign_negative(),
                magnitude: p.mantissa().unsigned_abs(),
                scale: p.scale(),
            },
        ),
        None => None,
    }
}

/// `10^n` as a `u64`, where it fits (`10u64.checked_pow(n)`).
pub fn checked_pow10(n: u32) -> (r: Option<u64>)
    ensures
        n <= 19 ==> r == Some(pow10(n as nat) as u64) && pow10(n as nat) <= u64::MAX,
        n > 19 ==> r is None,
{
    if n > 19 {
        proof {
            lemma_pow10_monotone(20, n as nat);
            lemma_pow10_values();
        }
        return None;
    }
    let mut p: u64 = 1;
    let mut i: u32 = 0;
    while i < n
        invariant
            i <= n <= 19,
            p == pow10(i as nat),
        decreases n - i,
    {
        proof {
            lemma_pow10_monotone((i + 1) as nat, 19);
            lemma_pow10_values();
        }
        p = p * 10;
        i = i + 1;
    }
    proof {
        lemma_pow10_monotone(n as nat, 19);
        lemma_pow10_values();
    }
    Some(p)
}

/// The powers of ten that bound the integer types used here.
pub proof fn lemma_pow10_values()
    ensures
        pow10(19) == 10000000000000000000,
        pow10(20) == 100000000000000000000,
        pow10(28) == 10000000000000000000000000000,
{
    reveal_with_fuel(pow10, 29);
}

/// `10^a <= 10^b` for `a <= b`.
pub proof fn lemma_pow10_monotone(a: nat, b: nat)
    requires
        a <= b,
    ensures
        pow10(a) <= pow10(b),
        pow10(a) >= 1,
    decreases b,
{
    if a < b {
        lemma_pow10_monotone(a, (b - 1) as nat);
    } else if a > 0 {
        lemma_pow10_monotone((a - 1) as nat, (a - 1) as nat);
    }
}

/// `10^n` as a `u128`, for a decimal scale.
fn pow10_u128(n: u32) -> (r: u128)
    requires
        n <= 28,
    ensures
        r == pow10(n as nat),
        r >= 1,
{
    proof {
        lemma_pow10_monotone(0, n as nat);
    }
    let mut p: u128 = 1;
    let mut i: u32 = 0;
    while i < n
        invariant
            i <= n <= 28,
            p == pow10(i as nat),
        decreases n - i,
    {
        proof {
            lemma_pow10_monotone((i + 1) as nat, 28);
            lemma_pow10_values();
        }
        p = p * 10;
        i = i + 1;
    }
    p
}

/// The integer text of a decimal that has no fractional part: a minus sign
/// where it is negative, then the digits of its integer value.
pub open spec fn spec_scaled_to_raw(d: DecimalParts) -> Result<Seq<char>, PriceError> {
    if d.magnitude as nat % pow10(d.scale as nat) != 0 {
        Err(PriceError::NotRepresentable)
    } else {
        Ok(
            (if d.negative {
                seq!['-']
            } else {
                Seq::<char>::empty()
            }) + decimal_digits(d.magnitude as nat / pow10(d.scale as nat)),
        )
    }
}

/// What `price_to_raw` returns, over the names of the decimal parse and multiplication.
pub open spec fn spec_price_to_raw(price: Seq<char>, decimals: u32) -> Result<Seq<char>, PriceError> {
    if decimals > 19 {
        Err(PriceError::DecimalsTooLarge)
    } else {
        match decimal_from_str(price) {
            None => Err(PriceError::InvalidPrice),
            Some(d) => match decimal_mul_u64(d, pow10(decimals as nat) as u64) {
                None => Err(PriceError::Overflow),
                Some(scaled) => spec_scaled_to_raw(scaled),
            },
        }
    }
}

/// The view of a `Result<String, E>`.
pub open spec fn string_result_view<E>(r: Result<String, E>) -> Result<Seq<char>, E> {
    match r {
        Ok(s) => Ok(s@),
        Err(e) => Err(e),
    }
}

/// Writes a decimal with no fractional part as an integer text: refuses a
/// fractional part, then writes the sign and the integer digits, as
/// `Decimal::trunc().to_string()` does for an integral decimal.
pub fn scaled_to_raw(d: DecimalParts) -> (r: Result<String, PriceError>)
    requires
        d.wf(),
    ensures
        string_result_view(r) == spec_scaled_to_raw(d),
{
    let unit = pow10_u128(d.scale);
    if d.magnitude % unit != 0 {
        return Err(PriceError::NotRepresentable);
    }
    let mut s = String::new();
    if d.negative {
        crate::text::push_char(&mut s, '-');
    }
    let ghost prefix = s@;
    push_decimal(&mut s, d.magnitude / unit);
    assert(prefix =~= (if d.negative {
        seq!['-']
    } else {
        Seq::<char>::empty()
    }));
    Ok(s)
}

/// The close price `price`, a decimal text, times `10^decimals`, as a base-10
/// integer text. Where the price parses and its exact product with
/// `10^decimals` fits in 96 bits, the text is that product, which must be an
/// integer.
pub fn price_to_raw(price: &str, decimals: u32) -> (r: Result<String, PriceError>)
    ensures
        string_result_view(r) == spec_price_to_raw(price@, decimals),
        decimals <= 19 ==> (decimal_from_str(price@) matches Some(d) ==> (d.magnitude * pow10(
            decimals as nat,
        ) < 0x1_0000_0000_0000_0000_0000_0000 ==> {
            let product: nat = (d.magnitude as nat) * pow10(decimals as nat);
            &&& (r is Ok <==> product % pow10(d.scale as nat) == 0)
            &&& (r matches Ok(raw) ==> raw@ == (if d.negative && product > 0 {
                seq!['-']
            } else {
                Seq::<char>::empty()
            }) + decimal_digits(product / pow10(d.scale as nat)))
        })),
{
    let multiplier = match checked_pow10(decimals) {
        Some(m) => m,
        None => return Err(PriceError::DecimalsTooLarge),
    };
    let parsed = match decimal_parse(price) {
        Some(d) => d,
        None => return Err(PriceError::InvalidPrice),
    };
    let scaled = match decimal_scale_by(parsed, multiplier) {
        Some(s) => s,
        None => return Err(PriceError::Overflow),
    };
    proof {
        lemma_pow10_monotone(0, decimals as nat);
        lemma_pow10_monotone(0, parsed.scale as nat);
        let pd = pow10(decimals as nat);
        let ps = pow10(parsed.scale as nat);
        assert(pow10(0) == 1);
        if parsed.magnitude == 0 {
            let m = parsed.magnitude as nat;
            assert(m * pd == 0) by (nonlinear_arith)
                requires
                    m == 0,
            ;
            assert(0nat % ps == 0);
            assert(0nat / ps == 0);
            assert(0nat % pow10(0) == 0);
            assert(0nat / pow10(0) == 0);
        } else {
            let m = parsed.magnitude as nat;
            assert(m * pd > 0) by (nonlinear_arith)
                requires
                    m > 0,
                    pd >= 1,
            ;
        }
    }
    scaled_to_raw(scaled)
}

/// A klines request for the candles that open from `start` through `end`.
#[derive(Debug)]
pub struct KlinesRequest {
    /// `{base_url}/api/v3/klines`.
    pub url: String,
    pub symbol: String,
    /// Always `15m`.
    pub interval: String,
    /// The first requested open time, in milliseconds.
    pub start_time_ms: u64,
    /// The last millisecond of the last requested candle.
    pub end_time_ms: u64,
    pub limit: u16,
    /// The API key to send as `X-MBX-APIKEY`, trimmed, where one is set.
    pub api_key: Option<String>,
}

/// The Binance market data client's settings.
pub struct BinanceClient {
    pub base_url: String,
    pub api_key: String,
    pub api_secret: String,
    pub symbol: String,
    pub price_decimals: u32,
}

/// What a kline row gives: open time in seconds, close price text and raw price text.
pub open spec fn spec_parse_kline(kline: Seq<JsonValue>, price_decimals: u32) -> Result<
    (u64, Seq<char>, Seq<char>),
    BinanceError,
> {
    let open_ms = if kline.len() > 0 {
        kline[0].spec_as_u64()
    } else {
        None
    };
    let close = if kline.len() > 4 {
        kline[4].spec_as_str()
    } else {
        None
    };
    match open_ms {
        None => Err(BinanceError::MissingOpenTime),
        Some(ms) => match close {
            None => Err(BinanceError::MissingClosePrice),
            Some(price) => match spec_price_to_raw(price, price_decimals) {
                Err(e) => Err(BinanceError::Price(e)),
                Ok(raw) => Ok(((ms / 1000) as u64, price, raw)),
            },
        },
    }
}

/// A kline row's candle comes from its first and fifth columns alone: the
/// open time is the first column in seconds, the close price text is the
/// fifth column, the raw price is that text scaled by `price_to_raw`, and the
/// row parses exactly where that scaling succeeds. Columns past the fifth,
/// however many, change nothing.
pub proof fn lemma_kline_reads_open_and_close(
    kline: Seq<JsonValue>,
    extra: Seq<JsonValue>,
    price_decimals: u32,
    open_ms: u64,
    close: String,
)
    requires
        kline.len() >= 5,
        kline[0] == JsonValue::UInt(open_ms),
        kline[4] == JsonValue::Str(close),
    ensures
        spec_parse_kline(kline + extra, price_decimals) == spec_parse_kline(kline, price_decimals),
        spec_parse_kline(kline, price_decimals) is Ok <==> spec_price_to_raw(close@, price_decimals)
            is Ok,
        spec_price_to_raw(close@, price_decimals) matches Ok(raw) ==> spec_parse_kline(
            kline,
            price_decimals,
        ) == Ok::<(u64, Seq<char>, Seq<char>), BinanceError>(
            ((open_ms / 1000) as u64, close@, raw),
        ),
        spec_price_to_raw(close@, price_decimals) matches Err(e) ==> spec_parse_kline(
            kline,
            price_decimals,
        ) == Err::<(u64, Seq<char>, Seq<char>), BinanceError>(BinanceError::Price(e)),
{
    assert((kline + extra)[0] == kline[0]);
    assert((kline + extra)[4] == kline[4]);
}

/// The view of a cached candle: open time, close price text, raw price text.
pub open spec fn candle_view(c: CachedCandle) -> (u64, Seq<char>, Seq<char>) {
    (c.candle_open_time, c.price_scaled@, c.price_raw@)
}

/// Turns one kline row (open time in milliseconds first, close price string
/// fifth) into a cached candle.
pub fn parse_kline(kline: &[JsonValue], price_decimals: u32) -> (r: Result<
    CachedCandle,
    BinanceError,
>)
    ensures
        match r {
            Ok(c) => spec_parse_kline(kline@, price_decimals) == Ok::<
                (u64, Seq<char>, Seq<char>),
                BinanceError,
            >(candle_view(c)),
            Err(e) => spec_parse_kline(kline@, price_decimals) == Err::<
                (u64, Seq<char>, Seq<char>),
                BinanceError,
            >(e),
        },
{
    let open_ms = if kline.len() > 0 {
        kline[0].as_u64()
    } else {
        None
    };
    let open_ms = match open_ms {
        Some(ms) => ms,
        None => return Err(BinanceError::MissingOpenTime),
    };
    let close = if kline.len() > 4 {
        kline[4].as_str()
    } else {
        None
    };
    let close = match close {
        Some(c) => c,
        None => return Err(BinanceError::MissingClosePrice),
    };
    let raw = match price_to_raw(close, price_decimals) {
        Ok(raw) => raw,
        Err(e) => return Err(BinanceError::Price(e)),
    };
    Ok(CachedCandle { candle_open_time: open_ms / 1000, price_scaled: to_owned_string(close), price_raw: raw })
}

impl BinanceClient {
    /// Settings with the base URL's trailing slashes removed.
    pub fn new(
        base_url: String,
        api_key: String,
        api_secret: String,
        symbol: String,
        price_decimals: u32,
    ) -> (r: Self)
        ensures
            r.base_url@ == trim_end_char(base_url@, '/'),
            r.api_key == api_key,
            r.api_secret == api_secret,
            r.symbol == symbol,
            r.price_decimals == price_decimals,
    {
        let trimmed = to_owned_string(trim_end_matches_char(base_url.as_str(), '/'));
        BinanceClient { base_url: trimmed, api_key, api_secret, symbol, price_decimals }
    }

    /// The klines request for the candles that open from `start_open_time`
    /// through `end_open_time`; `None` where the range is empty.
    pub fn klines_request(&self, start_open_time: u64, end_open_time: u64) -> (r: Result<
        Option<KlinesRequest>,
        BinanceError,
    >)
        ensures
            start_open_time > end_open_time ==> r matches Ok(None),
            start_open_time <= end_open_time && start_open_time * 1000 > u64::MAX ==> r == Err::<
                Option<KlinesRequest>,
                BinanceError,
            >(BinanceError::TimestampOverflow),
            start_open_time <= end_open_time && start_open_time * 1000 <= u64::MAX && (
            end_open_time + 900) * 1000 > u64::MAX ==> r == Err::<
                Option<KlinesRequest>,
                BinanceError,
            >(BinanceError::EndTimestampOverflow),
            start_open_time <= end_open_time && (end_open_time + 900) * 1000 <= u64::MAX ==> (
            (r matches Ok(Some(req)) && {
                &&& req.url@ == self.base_url@ + "/api/v3/klines"@
                &&& req.symbol@ == self.symbol@
                &&& req.interval@ == "15m"@
                &&& req.start_time_ms == start_open_time * 1000
                &&& req.end_time_ms == (end_open_time + 900) * 1000 - 1
                &&& req.limit == 1000
                &&& (trim(self.api_key@).len() == 0 ==> req.api_key is None)
                &&& (trim(self.api_key@).len() > 0 ==> (req.api_key matches Some(k) && k@ == trim(
                    self.api_key@,
                )))
            })),
    {
        if start_open_time > end_open_time {
            return Ok(None);
        }
        let start_ms = seconds_to_millis(start_open_time)?;
        let end_ms = if end_open_time <= u64::MAX - FIFTEEN_MINUTES_SECS && end_open_time + FIFTEEN_MINUTES_SECS <= u64::MAX / 1000 {
            (end_open_time + FIFTEEN_MINUTES_SECS) * 1000 - 1
        } else {
            return Err(BinanceError::EndTimestampOverflow);
        };
        let mut url = to_owned_string(self.base_url.as_str());
        append_str(&mut url, "/api/v3/klines");
        let key = trim_str(self.api_key.as_str());
        let api_key = if key.unicode_len() == 0 {
            None
        } else {
            Some(to_owned_string(key))
        };
        Ok(
            Some(
                KlinesRequest {
                    url,
                    symbol: to_owned_string(self.symbol.as_str()),
                    interval: to_owned_string("15m"),
                    start_time_ms: start_ms,
                    end_time_ms: end_ms,
                    limit: MAX_KLINES_PER_REQUEST,
                    api_key,
                },
            ),
        )
    }

    /// Turns every kline row of a response into a cached candle, failing at
    /// the first row that does not parse.
    pub fn parse_klines(&self, klines: &[Vec<JsonValue>]) -> (r: Result<
        Vec<CachedCandle>,
        BinanceError,
    >)
        ensures
            match r {
                Ok(candles) => {
                    &&& candles.len() == klines.len()
                    &&& forall|i: int|
                        0 <= i < klines.len() ==> spec_parse_kline(
                            #[trigger] klines@[i]@,
                            self.price_decimals,
                        ) == Ok::<(u64, Seq<char>, Seq<char>), BinanceError>(
                            candle_view(candles@[i]),
                        )
                },
                Err(e) => exists|i: int|
                    0 <= i < klines.len() && spec_parse_kline(
                        #[trigger] klines@[i]@,
                        self.price_decimals,
                    ) == Err::<(u64, Seq<char>, Seq<char>), BinanceError>(e) && forall|j: int|
                        0 <= j < i ==> spec_parse_kline(#[trigger] klines@[j]@, self.price_decimals)
                            is Ok,
            },
    {
        let mut out: Vec<CachedCandle> = Vec::new();
        let n = klines.len();
        let mut i: usize = 0;
        while i < n
            invariant
                n == klines@.len(),
                i <= n,
                out@.len() == i,
                forall|j: int|
                    0 <= j < i ==> spec_parse_kline(#[trigger] klines@[j]@, self.price_decimals)
                        == Ok::<(u64, Seq<char>, Seq<char>), BinanceError>(candle_view(out@[j])),
            decreases n - i,
        {
            match parse_kline(klines[i].as_slice(), self.price_decimals) {
                Ok(c) => {
                    out.push(c);
                },
                Err(e) => {
                    assert(forall|j: int|
                        0 <= j < i ==> spec_parse_kline(#[trigger] klines@[j]@, self.price_decimals)
                            is Ok);
                    return Err(e);
                },
            }
            i = i + 1;
        }
        Ok(out)
    }
}

} // verus!
