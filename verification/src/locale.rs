use vstd::prelude::*;

verus! {

/// A locale, held as its BCP-47 language tag. The two locale-sensitive
/// collaborators — the cardinal plural classifier and the decimal number
/// formatter — are reached through the tag alone.
#[derive(Debug)]
pub struct Locale {
    tag: String,
}

impl View for Locale {
    type V = Seq<char>;

    closed spec fn view(&self) -> Seq<char> {
        self.tag@
    }
}

impl Locale {
    /// A locale with the given language tag.
    pub fn new(tag: &str) -> (l: Locale)
        ensures
            l@ == tag@,
    {
        Locale { tag: tag.to_owned() }
    }

    /// The language tag this locale was made with.
    pub fn tag_str(&self) -> (r: &str)
        ensures
            r@ == self@,
    {
        self.tag.as_str()
    }

    /// A copy with the same tag.
    pub fn dup(&self) -> (r: Locale)
        ensures
            r@ == self@,
    {
        Locale { tag: self.tag.clone() }
    }
}

/// What the locale-sensitive number formatter yields for the plain decimal
/// string `value` under the locale with tag `locale`: the locale-appropriate
/// grouping and separator rendering, or nothing when the tag, the value or
/// the locale's decimal data cannot be had. The result depends on the two
/// arguments alone.
pub uninterp spec fn formatted_decimal(locale: Seq<char>, value: Seq<char>) -> Option<Seq<char>>;

/// What the locale-sensitive cardinal plural classifier yields for the
/// numeric operand string `operand` under the locale with tag `locale`: a
/// CLDR plural category name, or nothing when the tag, the operand or the
/// locale's plural data cannot be had. The result depends on the two
/// arguments alone.
pub uninterp spec fn cardinal_category(locale: Seq<char>, operand: Seq<char>) -> Option<Seq<char>>;

/// Relies on `icu_decimal::FixedDecimalFormatter::try_new` (compiled data)
/// and `format_to_string`, with `icu::locid::Locale` and `FixedDecimal`
/// parsed from text: the locale-appropriate rendering of the decimal string,
/// a function of the tag and the value alone.
#[verifier::external_body]
pub(crate) fn icu_format_decimal(locale: &str, value: &str) -> (r: Option<String>)
    ensures
        r.deep_view() == formatted_decimal(locale@, value@),
{
    let Ok(loc) = locale.parse::<icu::locid::Locale>() else { return None };
    let fdf = icu_decimal::FixedDecimalFormatter::try_new(&(&loc).into(), Default::default());
    let Ok(fdf) = fdf else { return None };
    let Ok(fd) = value.parse() else { return None };
    Some(fdf.format_to_string(&fd))
}

/// Relies on `icu::plurals::PluralRules::try_new` for cardinal rules
/// (compiled data) and `category_for`, with `icu::locid::Locale` and
/// `icu::plurals::PluralOperands` parsed from text: the CLDR cardinal plural
/// class of the operand under the locale, a function of the tag and the
/// operand alone, always one of the six category names.
#[verifier::external_body]
pub(crate) fn icu_plural_category(locale: &str, operand: &str) -> (r: Option<String>)
    ensures
        r.deep_view() == cardinal_category(locale@, operand@),
        r matches Some(c) ==> (c@ == "zero"@ || c@ == "one"@ || c@ == "two"@ || c@ == "few"@ || c@
            == "many"@ || c@ == "other"@),
{
    let Ok(loc) = locale.parse::<icu::locid::Locale>() else { return None };
    let kind = icu::plurals::PluralRuleType::Cardinal;
    let Ok(rules) = icu::plurals::PluralRules::try_new(&(&loc).into(), kind) else { return None };
    let Ok(op) = operand.parse::<icu::plurals::PluralOperands>() else { return None };
    Some(match rules.category_for(op) {
        icu::plurals::PluralCategory::Zero => "zero".to_owned(),
        icu::plurals::PluralCategory::One => "one".to_owned(),
        icu::plurals::PluralCategory::Two => "two".to_owned(),
        icu::plurals::PluralCategory::Few => "few".to_owned(),
        icu::plurals::PluralCategory::Many => "many".to_owned(),
        icu::plurals::PluralCategory::Other => "other".to_owned(),
    })
}

} // verus!
