//! The pricing table's data: tiers, release statuses, prices, entries.
use vstd::prelude::*;

use crate::error::{ErrorView, GhLlmCostError};
use crate::text::{
    concat, eq_ignore_ascii_case, eq_ignoring_ascii_case, remove_char, str_eq, trim, trimmed,
    without_char,
};

use self::amount::is_float_text;

pub mod amount;
pub mod magnitude;
pub mod parse;

verus! {

broadcast use vstd::string::group_string_axioms;

/// The pricing tier of an entry.
#[derive(Debug, Clone, PartialEq, Eq, Hash, Structural)]
pub enum Tier {
    Default,
    LongContext,
    NotApplicable,
}

/// The label shown for a tier.
pub open spec fn tier_label(t: Tier) -> Seq<char> {
    match t {
        Tier::Default => "Default"@,
        Tier::LongContext => "Long context"@,
        Tier::NotApplicable => "N/A"@,
    }
}

/// The tier that a (trimmed) documentation label names, if any.
pub open spec fn tier_named(label: Seq<char>) -> Option<Tier> {
    if label == "Default"@ {
        Some(Tier::Default)
    } else if label == "Long context"@ {
        Some(Tier::LongContext)
    } else if label == "Not applicable"@ {
        Some(Tier::NotApplicable)
    } else {
        None
    }
}

/// The outcome of reading a tier from the documentation text `value`.
pub open spec fn tier_outcome(value: Seq<char>) -> Result<Tier, ErrorView> {
    match tier_named(trimmed(value)) {
        Some(t) => Ok(t),
        None => Err(ErrorView::Parse("Unknown tier: "@ + trimmed(value))),
    }
}

impl Tier {
    /// The label shown for this tier.
    pub fn as_str(&self) -> (s: &'static str)
        ensures
            s@ == tier_label(*self),
    {
        match self {
            Tier::Default => "Default",
            Tier::LongContext => "Long context",
            Tier::NotApplicable => "N/A",
        }
    }

    /// Reads a tier from the documentation text `value`, ignoring surrounding
    /// whitespace.
    pub fn from_label(value: &str) -> (r: Result<Tier, GhLlmCostError>)
        ensures
            match tier_outcome(value@) {
                Ok(t) => r == Ok::<Tier, GhLlmCostError>(t),
                Err(e) => r matches Err(err) && err@ == e,
            },
    {
        let t = trim(value);
        if str_eq(t.as_str(), "Default") {
            Ok(Tier::Default)
        } else if str_eq(t.as_str(), "Long context") {
            Ok(Tier::LongContext)
        } else if str_eq(t.as_str(), "Not applicable") {
            Ok(Tier::NotApplicable)
        } else {
            Err(GhLlmCostError::Parse(concat("Unknown tier: ", t.as_str())))
        }
    }
}

impl<'a> TryFrom<&'a str> for Tier {
    type Error = GhLlmCostError;

    fn try_from(value: &'a str) -> (r: Result<Self, Self::Error>)
        ensures
            match tier_outcome(value@) {
                Ok(t) => r == Ok::<Tier, GhLlmCostError>(t),
                Err(e) => r matches Err(err) && err@ == e,
            },
    {
        Tier::from_label(value)
    }
}

/// What `try_from` returns is stated on `try_from` itself; the error message is
/// a `String`, which no spec value equals, so no claim is made here.
impl<'a> vstd::std_specs::convert::TryFromSpecImpl<&'a str> for Tier {
    open spec fn obeys_try_from_spec() -> bool {
        false
    }

    open spec fn try_from_spec(value: &'a str) -> Result<Self, Self::Error> {
        match tier_named(trimmed(value@)) {
            Some(t) => Ok(t),
            None => Err(arbitrary()),
        }
    }
}

/// The release status of a model.
#[derive(Debug, Clone, PartialEq, Eq, Hash, Structural)]
pub enum ReleaseStatus {
    Ga,
    PublicPreview,
    Preview,
}

/// The label shown for a release status.
pub open spec fn release_status_label(s: ReleaseStatus) -> Seq<char> {
    match s {
        ReleaseStatus::Ga => "GA"@,
        ReleaseStatus::PublicPreview => "Public preview"@,
        ReleaseStatus::Preview => "Preview"@,
    }
}

/// The release status that a (trimmed) documentation label names, if any.
pub open spec fn release_status_named(label: Seq<char>) -> Option<ReleaseStatus> {
    if label == "GA"@ {
        Some(ReleaseStatus::Ga)
    } else if label == "Public preview"@ {
        Some(ReleaseStatus::PublicPreview)
    } else if label == "Preview"@ {
        Some(ReleaseStatus::Preview)
    } else {
        None
    }
}

/// The outcome of reading a release status from the documentation text `value`.
pub open spec fn release_status_outcome(value: Seq<char>) -> Result<ReleaseStatus, ErrorView> {
    match release_status_named(trimmed(value)) {
        Some(s) => Ok(s),
        None => Err(ErrorView::Parse("Unknown release status: "@ + trimmed(value))),
    }
}

impl ReleaseStatus {
    /// The label shown for this release status.
    pub fn as_str(&self) -> (s: &'static str)
        ensures
            s@ == release_status_label(*self),
    {
        match self {
            ReleaseStatus::Ga => "GA",
            ReleaseStatus::PublicPreview => "Public preview",
            ReleaseStatus::Preview => "Preview",
        }
    }

    /// Reads a release status from the documentation text `value`, ignoring
    /// surrounding whitespace.
    pub fn from_label(value: &str) -> (r: Result<ReleaseStatus, GhLlmCostError>)
        ensures
            match release_status_outcome(value@) {
                Ok(s) => r == Ok::<ReleaseStatus, GhLlmCostError>(s),
                Err(e) => r matches Err(err) && err@ == e,
            },
    {
        let t = trim(value);
        if str_eq(t.as_str(), "GA") {
            Ok(ReleaseStatus::Ga)
        } else if str_eq(t.as_str(), "Public preview") {
            Ok(ReleaseStatus::PublicPreview)
        } else if str_eq(t.as_str(), "Preview") {
            Ok(ReleaseStatus::Preview)
        } else {
            Err(GhLlmCostError::Parse(concat("Unknown release status: ", t.as_str())))
        }
    }
}

impl<'a> TryFrom<&'a str> for ReleaseStatus {
    type Error = GhLlmCostError;

    fn try_from(value: &'a str) -> (r: Result<Self, Self::Error>)
        ensures
            match release_status_outcome(value@) {
                Ok(t) => r == Ok::<ReleaseStatus, GhLlmCostError>(t),
                Err(e) => r matches Err(err) && err@ == e,
            },
    {
        ReleaseStatus::from_label(value)
    }
}

/// What `try_from` returns is stated on `try_from` itself; the error message is
/// a `String`, which no spec value equals, so no claim is made here.
impl<'a> vstd::std_specs::convert::TryFromSpecImpl<&'a str> for ReleaseStatus {
    open spec fn obeys_try_from_spec() -> bool {
        false
    }

    open spec fn try_from_spec(value: &'a str) -> Result<Self, Self::Error> {
        match release_status_named(trimmed(value@)) {
            Some(t) => Ok(t),
            None => Err(arbitrary()),
        }
    }
}

/// Whether `render` can give, for the amount `literal`, `shown` as its
/// two-decimal form and `bits` as the bit pattern of the number it reads as.
pub open spec fn renders<F: Fn(&str) -> (String, u64)>(
    render: F,
    literal: Seq<char>,
    shown: Seq<char>,
    bits: u64,
) -> bool {
    exists|a: &str, r: (String, u64)|
        a@ == literal && r.0@ == shown && r.1 == bits && #[trigger] render.ensures((a,), r)
}

/// What reading a price from `value` gives: no amount, the amount's text as
/// `f64` parses it, or an error message.
pub open spec fn price_outcome(value: Seq<char>) -> Result<Option<Seq<char>>, Seq<char>> {
    let t = trimmed(value);
    if t.len() == 0 || eq_ignoring_ascii_case(t, "Not applicable"@) {
        Ok(None)
    } else if t[0] != '$' {
        Err("Missing '$' in price: "@ + t)
    } else {
        let w = without_char(t.drop_first(), ',');
        if !amount::is_float_literal(w) {
            Err(
                "Invalid price '"@ + t + "': "@ + if w.len() == 0 {
                    "cannot parse float from empty string"@
                } else {
                    "invalid float literal"@
                },
            )
        } else if w[0] == '-' {
            Err("Negative prices are not allowed: "@ + t)
        } else if amount::is_special_value(amount::unsigned_part(w)) || magnitude::overflows(
            amount::unsigned_part(w),
        ) {
            Err("Invalid price '"@ + t + "': "@ + "not a finite amount"@)
        } else {
            Ok(Some(w))
        }
    }
}

/// A price in USD per one million tokens, or none where the documentation
/// says that it does not apply.
///
/// An amount is kept as the decimal text read from the documentation
/// (without `$` and thousands separators), together with the two-decimal form
/// in which it is shown and the bit pattern of the floating-point number it
/// reads as. Two prices are equal when both have no amount, or when their
/// amounts read as the same number: for the finite, non-negative amounts that
/// `parse` accepts, exactly when the bit patterns are equal.
#[derive(Debug, Clone)]
pub struct Price(Option<(String, String, u64)>);

/// A price as its amount's text, shown form and number's bit pattern.
pub type PriceView = Option<(Seq<char>, Seq<char>, u64)>;

/// The bit pattern of a price's number, if it has one.
pub open spec fn price_bits(p: PriceView) -> Option<u64> {
    match p {
        None => None,
        Some((_, _, bits)) => Some(bits),
    }
}

impl PartialEq for Price {
    fn eq(&self, other: &Self) -> (r: bool) {
        match (&self.0, &other.0) {
            (None, None) => true,
            (Some((_, _, a)), Some((_, _, b))) => *a == *b,
            _ => false,
        }
    }
}

impl vstd::std_specs::cmp::PartialEqSpecImpl for Price {
    open spec fn obeys_eq_spec() -> bool {
        true
    }

    open spec fn eq_spec(&self, other: &Self) -> bool {
        price_bits(self@) == price_bits(other@)
    }
}

impl View for Price {
    type V = PriceView;

    closed spec fn view(&self) -> PriceView {
        match self.0 {
            None => None,
            Some((text, shown, bits)) => Some((text@, shown@, bits)),
        }
    }
}

/// The text shown for a price.
pub open spec fn price_display(p: PriceView) -> Seq<char> {
    match p {
        None => "N/A"@,
        Some((_, shown, _)) => "$"@ + shown,
    }
}

impl Price {
    /// Reads a price such as `"$1.75"`, `"$1,250.00"` or `"Not applicable"`.
    ///
    /// `render` gives, for an amount's text, the two-decimal form in which it
    /// is shown and the bit pattern of the number it reads as (the amount is
    /// a number that only floating point holds).
    ///
    /// # Errors
    ///
    /// The text is neither empty, `Not applicable` (in any ASCII case) nor a
    /// valid dollar amount: a `$` followed by a finite, non-negative number.
    pub fn parse<F: Fn(&str) -> (String, u64)>(value: &str, render: &F) -> (r: Result<Price, GhLlmCostError>)
        requires
            forall|a: &str| render.requires((a,)),
        ensures
            match price_outcome(value@) {
                Ok(None) => r matches Ok(p) && p@ == None::<(Seq<char>, Seq<char>, u64)>,
                Ok(Some(text)) => r matches Ok(p) && p@ matches Some((t, shown, bits)) && t == text
                    && renders(*render, text, shown, bits),
                Err(m) => r matches Err(e) && e@ == ErrorView::Parse(m),
            },
    {
        let trimmed_value = trim(value);
        let t = trimmed_value.as_str();
        let chars = crate::text::chars_of(t);
        if chars.len() == 0 || eq_ignore_ascii_case(t, "Not applicable") {
            return Ok(Price(None));
        }
        if chars[0] != '$' {
            return Err(GhLlmCostError::Parse(concat("Missing '$' in price: ", t)));
        }
        let rest = crate::text::string_of_range(&chars, 1, chars.len());
        assert(rest@ =~= t@.drop_first());
        let amount = remove_char(rest.as_str(), ',');
        if !is_float_text(amount.as_str()) {
            let head = concat("Invalid price '", t);
            let head = concat(head.as_str(), "': ");
            let reason = if crate::text::chars_of(amount.as_str()).len() == 0 {
                "cannot parse float from empty string"
            } else {
                "invalid float literal"
            };
            return Err(GhLlmCostError::Parse(concat(head.as_str(), reason)));
        }
        let amount_chars = crate::text::chars_of(amount.as_str());
        if amount_chars[0] == '-' {
            return Err(GhLlmCostError::Parse(concat("Negative prices are not allowed: ", t)));
        }
        if amount::is_special_text(amount.as_str()) || magnitude::amount_overflows(amount.as_str()) {
            let head = concat("Invalid price '", t);
            let head = concat(head.as_str(), "': ");
            return Err(GhLlmCostError::Parse(concat(head.as_str(), "not a finite amount")));
        }
        let rendered = render(amount.as_str());
        assert(renders(*render, amount@, rendered.0@, rendered.1));
        let (shown, bits) = rendered;
        Ok(Price(Some((amount, shown, bits))))
    }

    /// The price of a column that the documentation leaves out: not
    /// applicable.
    pub fn not_applicable() -> (p: Price)
        ensures
            p@ == None::<(Seq<char>, Seq<char>, u64)>,
    {
        Price(None)
    }

    /// The amount's decimal text, if the price has one.
    pub fn amount_text(&self) -> (r: Option<String>)
        ensures
            match self@ {
                None => r is None,
                Some((text, _, _)) => r matches Some(s) && s@ == text,
            },
    {
        match &self.0 {
            None => None,
            Some((text, _, _)) => Some(text.clone()),
        }
    }

    /// The price as shown in the table: `N/A`, or `$` and two decimals.
    pub fn display(&self) -> (s: String)
        ensures
            s@ == price_display(self@),
    {
        match &self.0 {
            None => "N/A".to_owned(),
            Some((_, shown, _)) => concat("$", shown.as_str()),
        }
    }
}

/// One row of the pricing table.
#[derive(Debug, Clone, PartialEq)]
pub struct LlmCostEntry {
    pub provider: String,
    pub model: String,
    pub release_status: ReleaseStatus,
    pub category: String,
    pub tier: Tier,
    pub threshold: String,
    pub input: Price,
    pub cached_input: Price,
    pub cache_write: Price,
    pub output: Price,
}

/// An entry with its texts as character sequences.
pub struct EntryView {
    pub provider: Seq<char>,
    pub model: Seq<char>,
    pub release_status: ReleaseStatus,
    pub category: Seq<char>,
    pub tier: Tier,
    pub threshold: Seq<char>,
    pub input: PriceView,
    pub cached_input: PriceView,
    pub cache_write: PriceView,
    pub output: PriceView,
}

impl View for LlmCostEntry {
    type V = EntryView;

    open spec fn view(&self) -> EntryView {
        EntryView {
            provider: self.provider@,
            model: self.model@,
            release_status: self.release_status,
            category: self.category@,
            tier: self.tier,
            threshold: self.threshold@,
            input: self.input@,
            cached_input: self.cached_input@,
            cache_write: self.cache_write@,
            output: self.output@,
        }
    }
}

/// The column titles of the table.
pub open spec fn header_labels() -> Seq<Seq<char>> {
    seq![
        "Provider"@,
        "Model"@,
        "Release status"@,
        "Category"@,
        "Tier"@,
        "Threshold"@,
        "Input"@,
        "Cached input"@,
        "Cache write"@,
        "Output"@,
    ]
}

/// The cells shown for an entry, one per column.
pub open spec fn row_cells(e: EntryView) -> Seq<Seq<char>> {
    seq![
        e.provider,
        e.model,
        release_status_label(e.release_status),
        e.category,
        tier_label(e.tier),
        e.threshold,
        price_display(e.input),
        price_display(e.cached_input),
        price_display(e.cache_write),
        price_display(e.output),
    ]
}

impl LlmCostEntry {
    /// The column titles of the table.
    pub fn headers() -> (h: Vec<&'static str>)
        ensures
            h@.len() == header_labels().len(),
            forall|i: int| 0 <= i < h@.len() ==> (#[trigger] h@[i])@ == header_labels()[i],
    {
        vec![
            "Provider",
            "Model",
            "Release status",
            "Category",
            "Tier",
            "Threshold",
            "Input",
            "Cached input",
            "Cache write",
            "Output",
        ]
    }

    /// The cells shown for this entry, in the order of [`LlmCostEntry::headers`].
    pub fn row(&self) -> (r: Vec<String>)
        ensures
            r@.len() == row_cells(self@).len(),
            forall|i: int| 0 <= i < r@.len() ==> (#[trigger] r@[i])@ == row_cells(self@)[i],
    {
        let r = vec![
            self.provider.clone(),
            self.model.clone(),
            self.release_status.as_str().to_owned(),
            self.category.clone(),
            self.tier.as_str().to_owned(),
            self.threshold.clone(),
            self.input.display(),
            self.cached_input.display(),
            self.cache_write.display(),
            self.output.display(),
        ];
        r
    }
}

/// The amount's text of a price, if it has one.
pub open spec fn amount_of(p: PriceView) -> Option<Seq<char>> {
    match p {
        None => None,
        Some((text, _, _)) => Some(text),
    }
}

/// The shown form of a price's amount comes from `render`.
pub open spec fn rendered_by<F: Fn(&str) -> (String, u64)>(render: F, p: PriceView) -> bool {
    p matches Some((text, shown, bits)) ==> renders(render, text, shown, bits)
}

/// What an entry holds apart from the shown form of its prices.
pub struct EntryData {
    pub provider: Seq<char>,
    pub model: Seq<char>,
    pub release_status: ReleaseStatus,
    pub category: Seq<char>,
    pub tier: Tier,
    pub threshold: Seq<char>,
    pub input: Option<Seq<char>>,
    pub cached_input: Option<Seq<char>>,
    pub cache_write: Option<Seq<char>>,
    pub output: Option<Seq<char>>,
}

/// What an entry holds apart from the shown form of its prices.
pub open spec fn entry_data(e: EntryView) -> EntryData {
    EntryData {
        provider: e.provider,
        model: e.model,
        release_status: e.release_status,
        category: e.category,
        tier: e.tier,
        threshold: e.threshold,
        input: amount_of(e.input),
        cached_input: amount_of(e.cached_input),
        cache_write: amount_of(e.cache_write),
        output: amount_of(e.output),
    }
}

/// Every price of the entry is shown as `render` gives it.
pub open spec fn entry_rendered_by<F: Fn(&str) -> (String, u64)>(render: F, e: EntryView) -> bool {
    &&& rendered_by(render, e.input)
    &&& rendered_by(render, e.cached_input)
    &&& rendered_by(render, e.cache_write)
    &&& rendered_by(render, e.output)
}

/// All the rows read from the documentation.
#[derive(Debug, Clone, Default)]
pub struct PricingData {
    pub entries: Vec<LlmCostEntry>,
}

/// `positions` lists, in increasing order, exactly the indices of `entries`
/// whose provider is `provider`, and at least one.
pub open spec fn is_provider_group(
    entries: Seq<LlmCostEntry>,
    provider: Seq<char>,
    positions: Seq<usize>,
) -> bool {
    &&& positions.len() > 0
    &&& forall|j: int| 0 <= j < positions.len() ==> positions[j] < entries.len()
    &&& forall|j: int|
        0 <= j < positions.len() ==> (#[trigger] entries[positions[j] as int]).provider@ == provider
    &&& forall|j1: int, j2: int|
        0 <= j1 < j2 < positions.len() ==> positions[j1] < positions[j2]
    &&& forall|i: int|
        0 <= i < entries.len() && (#[trigger] entries[i]).provider@ == provider
            ==> positions.contains(i as usize)
}

/// Some group of `groups` is that of `provider`.
pub open spec fn lists_provider(groups: Seq<(String, Vec<usize>)>, provider: Seq<char>) -> bool {
    exists|k: int| 0 <= k < groups.len() && (#[trigger] groups[k]).0@ == provider
}

/// `groups` holds one group per provider of `entries`, in the order in which
/// the providers first appear.
pub open spec fn is_provider_grouping(
    entries: Seq<LlmCostEntry>,
    groups: Seq<(String, Vec<usize>)>,
) -> bool {
    &&& forall|k: int|
        0 <= k < groups.len() ==> is_provider_group(entries, (#[trigger] groups[k]).0@, groups[k].1@)
    &&& forall|k1: int, k2: int|
        0 <= k1 < k2 < groups.len() ==> (#[trigger] groups[k1]).0@ != (#[trigger] groups[k2]).0@
    &&& forall|i: int|
        0 <= i < entries.len() ==> lists_provider(groups, (#[trigger] entries[i]).provider@)
    &&& forall|k1: int, k2: int|
        0 <= k1 < k2 < groups.len() ==> (#[trigger] groups[k1]).1@[0] < (#[trigger] groups[k2]).1@[0]
}

impl PricingData {
    /// Whether no entry was read.
    pub fn is_empty(&self) -> (r: bool)
        ensures
            r == (self.entries@.len() == 0),
    {
        self.entries.len() == 0
    }

    /// The number of entries.
    pub fn len(&self) -> (n: usize)
        ensures
            n == self.entries@.len(),
    {
        self.entries.len()
    }

    /// The index of each entry grouped by provider, the providers in the
    /// order of their first entry.
    pub fn provider_boundaries(&self) -> (groups: Vec<(String, Vec<usize>)>)
        ensures
            is_provider_grouping(self.entries@, groups@),
    {
        let ghost entries = self.entries@;
        let n = self.entries.len();
        let mut names: Vec<String> = Vec::new();
        let mut positions: Vec<Vec<usize>> = Vec::new();
        let mut i: usize = 0;
        while i < n
            invariant
                n == entries.len(),
                entries == self.entries@,
                i <= n,
                names@.len() == positions@.len(),
                forall|k: int|
                    0 <= k < positions@.len() ==> {
                        let ps = (#[trigger] positions@[k])@;
                        &&& ps.len() > 0
                        &&& forall|j: int| 0 <= j < ps.len() ==> ps[j] < i
                        &&& forall|j: int|
                            0 <= j < ps.len() ==> (#[trigger] entries[ps[j] as int]).provider@
                                == names@[k]@
                        &&& forall|j1: int, j2: int| 0 <= j1 < j2 < ps.len() ==> ps[j1] < ps[j2]
                        &&& forall|t: int|
                            0 <= t < i && (#[trigger] entries[t]).provider@ == names@[k]@
                                ==> ps.contains(t as usize)
                    },
                forall|k1: int, k2: int|
                    0 <= k1 < k2 < names@.len() ==> (#[trigger] names@[k1])@ != (
                    #[trigger] names@[k2])@,
                forall|t: int|
                    0 <= t < i ==> exists|k: int|
                        0 <= k < names@.len() && (#[trigger] names@[k])@ == (
                        #[trigger] entries[t]).provider@,
                forall|k1: int, k2: int|
                    0 <= k1 < k2 < positions@.len() ==> (#[trigger] positions@[k1])@[0] < (
                    #[trigger] positions@[k2])@[0],
            decreases n - i,
        {
            let provider = &self.entries[i].provider;
            let mut k: usize = 0;
            let mut found = false;
            while k < names.len() && !found
                invariant
                    k <= names@.len(),
                    forall|k2: int| 0 <= k2 < k ==> (#[trigger] names@[k2])@ != provider@,
                    found ==> k < names@.len() && names@[k as int]@ == provider@,
                decreases names.len() - k + if found { 0int } else { 1int },
            {
                if str_eq(names[k].as_str(), provider.as_str()) {
                    found = true;
                } else {
                    k += 1;
                }
            }
            if found {
                let ghost old_positions = positions@;
                let mut group = positions[k].clone();
                assert(group@ == old_positions[k as int]@);
                group.push(i);
                positions.set(k, group);
                assert forall|k1: int| 0 <= k1 < positions@.len() implies {
                    let ps = (#[trigger] positions@[k1])@;
                    &&& ps.len() > 0
                    &&& forall|j: int| 0 <= j < ps.len() ==> ps[j] < i + 1
                    &&& forall|j: int|
                        0 <= j < ps.len() ==> (#[trigger] entries[ps[j] as int]).provider@
                            == names@[k1]@
                    &&& forall|j1: int, j2: int| 0 <= j1 < j2 < ps.len() ==> ps[j1] < ps[j2]
                    &&& forall|t: int|
                        0 <= t < i + 1 && (#[trigger] entries[t]).provider@ == names@[k1]@
                            ==> ps.contains(t as usize)
                } by {
                    let ps = positions@[k1]@;
                    if k1 == k {
                        assert forall|t: int|
                            0 <= t < i + 1 && (#[trigger] entries[t]).provider@ == names@[k1]@
                            implies ps.contains(t as usize) by {
                            if t < i {
                                let ops = old_positions[k1]@;
                                assert(ops.contains(t as usize));
                                let j = choose|j: int| 0 <= j < ops.len() && ops[j] == t as usize;
                                assert(ps[j] == t as usize);
                            } else {
                                assert(ps[ps.len() - 1] == i);
                            }
                        }
                    } else {
                        assert(ps == old_positions[k1]@);
                        assert forall|t: int|
                            0 <= t < i + 1 && (#[trigger] entries[t]).provider@ == names@[k1]@
                            implies ps.contains(t as usize) by {
                            if t == i {
                                assert(names@[k1]@ != names@[k as int]@);
                            }
                        }
                    }
                }
                assert forall|t: int| 0 <= t < i + 1 implies exists|k1: int|
                    0 <= k1 < names@.len() && (#[trigger] names@[k1])@ == (
                    #[trigger] entries[t]).provider@ by {
                    if t == i {
                        assert(names@[k as int]@ == entries[t].provider@);
                    }
                }
                assert forall|k1: int, k2: int|
                    0 <= k1 < k2 < positions@.len() implies (#[trigger] positions@[k1])@[0] < (
                    #[trigger] positions@[k2])@[0] by {
                    assert(positions@[k1]@[0] == old_positions[k1]@[0]);
                    assert(positions@[k2]@[0] == old_positions[k2]@[0]);
                }
            } else {
                let ghost old_positions = positions@;
                let ghost old_names = names@;
                names.push(provider.clone());
                let mut group: Vec<usize> = Vec::new();
                group.push(i);
                positions.push(group);
                assert forall|k1: int| 0 <= k1 < positions@.len() implies {
                    let ps = (#[trigger] positions@[k1])@;
                    &&& ps.len() > 0
                    &&& forall|j: int| 0 <= j < ps.len() ==> ps[j] < i + 1
                    &&& forall|j: int|
                        0 <= j < ps.len() ==> (#[trigger] entries[ps[j] as int]).provider@
                            == names@[k1]@
                    &&& forall|j1: int, j2: int| 0 <= j1 < j2 < ps.len() ==> ps[j1] < ps[j2]
                    &&& forall|t: int|
                        0 <= t < i + 1 && (#[trigger] entries[t]).provider@ == names@[k1]@
                            ==> ps.contains(t as usize)
                } by {
                    let ps = positions@[k1]@;
                    if k1 == old_positions.len() {
                        assert forall|t: int|
                            0 <= t < i + 1 && (#[trigger] entries[t]).provider@ == names@[k1]@
                            implies ps.contains(t as usize) by {
                            if t < i {
                                let k0 = choose|k0: int|
                                    0 <= k0 < old_names.len() && (#[trigger] old_names[k0])@
                                        == entries[t].provider@;
                                assert(old_names[k0]@ != provider@);
                            } else {
                                assert(ps[0] == i);
                            }
                        }
                    } else {
                        assert(ps == old_positions[k1]@);
                        assert(names@[k1] == old_names[k1]);
                        assert forall|t: int|
                            0 <= t < i + 1 && (#[trigger] entries[t]).provider@ == names@[k1]@
                            implies ps.contains(t as usize) by {
                            if t == i {
                                assert(old_names[k1]@ != provider@);
                            }
                        }
                    }
                }
                assert forall|t: int| 0 <= t < i + 1 implies exists|k1: int|
                    0 <= k1 < names@.len() && (#[trigger] names@[k1])@ == (
                    #[trigger] entries[t]).provider@ by {
                    if t == i {
                        assert(names@[old_names.len() as int]@ == entries[t].provider@);
                    } else {
                        let k0 = choose|k0: int|
                            0 <= k0 < old_names.len() && (#[trigger] old_names[k0])@
                                == entries[t].provider@;
                        assert(names@[k0] == old_names[k0]);
                    }
                }
                assert forall|k1: int, k2: int|
                    0 <= k1 < k2 < positions@.len() implies (#[trigger] positions@[k1])@[0] < (
                    #[trigger] positions@[k2])@[0] by {
                    if k2 == old_positions.len() {
                        assert(old_positions[k1]@[0] < i);
                    }
                }
            }
            i += 1;
        }
        let mut groups: Vec<(String, Vec<usize>)> = Vec::new();
        let mut k: usize = 0;
        while k < names.len()
            invariant
                k <= names@.len() == positions@.len(),
                groups@.len() == k,
                forall|k1: int|
                    0 <= k1 < k ==> (#[trigger] groups@[k1]).0@ == names@[k1]@ && groups@[k1].1@
                        == positions@[k1]@,
            decreases names.len() - k,
        {
            groups.push((names[k].clone(), positions[k].clone()));
            k += 1;
        }
        assert forall|k1: int| 0 <= k1 < groups@.len() implies is_provider_group(
            entries,
            (#[trigger] groups@[k1]).0@,
            groups@[k1].1@,
        ) by {
            let ps = positions@[k1]@;
            assert forall|i2: int|
                0 <= i2 < entries.len() && (#[trigger] entries[i2]).provider@ == groups@[k1].0@
                implies groups@[k1].1@.contains(i2 as usize) by {
                assert(ps.contains(i2 as usize));
            }
        }
        assert forall|t: int| 0 <= t < self.entries@.len() implies lists_provider(
            groups@,
            (#[trigger] self.entries@[t]).provider@,
        ) by {
            let k0 = choose|k0: int|
                0 <= k0 < names@.len() && (#[trigger] names@[k0])@ == entries[t].provider@;
            assert(groups@[k0].0@ == names@[k0]@);
        }
        assert forall|k1: int, k2: int|
            0 <= k1 < k2 < groups@.len() implies (#[trigger] groups@[k1]).1@[0] < (
            #[trigger] groups@[k2]).1@[0] by {
            assert(positions@[k1]@[0] < positions@[k2]@[0]);
        }
        assert forall|k1: int, k2: int|
            0 <= k1 < k2 < groups@.len() implies (#[trigger] groups@[k1]).0@ != (
            #[trigger] groups@[k2]).0@ by {
            assert(names@[k1]@ != names@[k2]@);
        }
        groups
    }
}

/// A label without surrounding whitespace reads back as itself.
pub proof fn lemma_trimmed_plain(s: Seq<char>)
    requires
        s.len() > 0,
        !crate::text::is_white_space(s[0]),
        !crate::text::is_white_space(s.last()),
    ensures
        trimmed(s) == s,
{
    assert(crate::text::trim_start(s) == s);
}

/// Reading back the label of a tier gives the tier, for the tiers whose label
/// the documentation uses: the not-applicable tier is shown as `N/A` but
/// written `Not applicable` in the documentation.
pub proof fn lemma_tier_label_round_trip(t: Tier)
    requires
        t != Tier::NotApplicable,
    ensures
        tier_outcome(tier_label(t)) == Ok::<Tier, ErrorView>(t),
{
    reveal_strlit("Default");
    reveal_strlit("Long context");
    lemma_trimmed_plain(tier_label(t));
}

/// Reading back the label of a release status gives the status.
pub proof fn lemma_release_status_label_round_trip(s: ReleaseStatus)
    ensures
        release_status_outcome(release_status_label(s)) == Ok::<ReleaseStatus, ErrorView>(s),
{
    reveal_strlit("GA");
    reveal_strlit("Public preview");
    reveal_strlit("Preview");
    lemma_trimmed_plain(release_status_label(s));
}

/// An accepted amount is a number as `f64` reads it, never negative, never
/// `inf` or `nan`, never too large for a finite `f64`, without thousands
/// separators.
pub proof fn lemma_accepted_amount(value: Seq<char>)
    requires
        price_outcome(value) matches Ok(Some(_)),
    ensures
        price_outcome(value) matches Ok(Some(w)) && amount::is_float_literal(w) && w[0] != '-'
            && !amount::is_special_value(amount::unsigned_part(w)) && !magnitude::overflows(
            amount::unsigned_part(w),
        ) && !w.contains(','),
{
    let w = without_char(trimmed(value).drop_first(), ',');
    crate::text::lemma_without_char_avoids(trimmed(value).drop_first(), ',');
}

/// Each entry falls in exactly one provider group.
pub proof fn lemma_groups_partition(entries: Seq<LlmCostEntry>, groups: Seq<(String, Vec<usize>)>, i: int)
    requires
        is_provider_grouping(entries, groups),
        0 <= i < entries.len(),
    ensures
        exists|k: int| 0 <= k < groups.len() && (#[trigger] groups[k]).1@.contains(i as usize),
        forall|k1: int, k2: int|
            0 <= k1 < groups.len() && 0 <= k2 < groups.len() && (#[trigger] groups[k1]).1@.contains(
                i as usize,
            ) && (#[trigger] groups[k2]).1@.contains(i as usize) ==> k1 == k2,
{
    assert(lists_provider(groups, entries[i].provider@));
    let k = choose|k: int| 0 <= k < groups.len() && (#[trigger] groups[k]).0@ == entries[i].provider@;
    assert(is_provider_group(entries, groups[k].0@, groups[k].1@));
    assert(groups[k].1@.contains(i as usize));
    assert forall|k1: int, k2: int|
        0 <= k1 < groups.len() && 0 <= k2 < groups.len() && (#[trigger] groups[k1]).1@.contains(
            i as usize,
        ) && (#[trigger] groups[k2]).1@.contains(i as usize) implies k1 == k2 by {
        assert(is_provider_group(entries, groups[k1].0@, groups[k1].1@));
        assert(is_provider_group(entries, groups[k2].0@, groups[k2].1@));
        let j1 = choose|j: int| 0 <= j < groups[k1].1@.len() && groups[k1].1@[j] == i as usize;
        let j2 = choose|j: int| 0 <= j < groups[k2].1@.len() && groups[k2].1@[j] == i as usize;
        assert(entries[groups[k1].1@[j1] as int].provider@ == groups[k1].0@);
        assert(entries[groups[k2].1@[j2] as int].provider@ == groups[k2].0@);
        if k1 < k2 {
            assert(groups[k1].0@ != groups[k2].0@);
        } else if k2 < k1 {
            assert(groups[k2].0@ != groups[k1].0@);
        }
    }
}

/// Every row has one cell per column title.
pub proof fn lemma_row_matches_headers(e: EntryView)
    ensures
        row_cells(e).len() == header_labels().len(),
{
}

} // verus!
