use vstd::prelude::*;
use crate::reader::SourceInfo;

verus! {

#[derive(Clone, Debug, PartialEq, Eq)]
pub struct Whitespace {
    pub value: String,
    pub source_info: SourceInfo,
}

pub struct WhitespaceV {
    pub value: Seq<char>,
    pub source_info: SourceInfo,
}

impl View for Whitespace {
    type V = WhitespaceV;

    open spec fn view(&self) -> WhitespaceV {
        WhitespaceV { value: self.value@, source_info: self.source_info }
    }
}

#[derive(Clone, Debug, PartialEq, Eq)]
pub struct Variable {
    pub name: String,
    pub source_info: SourceInfo,
}

pub struct VariableV {
    pub name: Seq<char>,
    pub source_info: SourceInfo,
}

impl View for Variable {
    type V = VariableV;

    open spec fn view(&self) -> VariableV {
        VariableV { name: self.name@, source_info: self.source_info }
    }
}

/// A placeholder `{{ name }}` inside a template.
#[derive(Clone, Debug, PartialEq, Eq)]
pub struct Expr {
    pub space0: Whitespace,
    pub variable: Variable,
    pub space1: Whitespace,
}

pub struct ExprV {
    pub space0: WhitespaceV,
    pub variable: VariableV,
    pub space1: WhitespaceV,
}

impl View for Expr {
    type V = ExprV;

    open spec fn view(&self) -> ExprV {
        ExprV { space0: self.space0@, variable: self.variable@, space1: self.space1@ }
    }
}

/// A piece of a template: text, with its decoded `value` and its source
/// text `encoded`, or a placeholder.
#[derive(Clone, Debug, PartialEq, Eq)]
pub enum TemplateElement {
    String { value: String, encoded: String },
    Expression(Expr),
}

pub enum TemplateElementV {
    Text { value: Seq<char>, encoded: Seq<char> },
    Expression(ExprV),
}

impl View for TemplateElement {
    type V = TemplateElementV;

    open spec fn view(&self) -> TemplateElementV {
        match self {
            TemplateElement::String { value, encoded } => TemplateElementV::Text {
                value: value@,
                encoded: encoded@,
            },
            TemplateElement::Expression(e) => TemplateElementV::Expression(e@),
        }
    }
}

#[derive(Clone, Debug, PartialEq, Eq)]
pub struct Template {
    pub delimiter: Option<char>,
    pub elements: Vec<TemplateElement>,
    pub source_info: SourceInfo,
}

pub struct TemplateV {
    pub delimiter: Option<char>,
    pub elements: Seq<TemplateElementV>,
    pub source_info: SourceInfo,
}

pub open spec fn elements_view(v: Seq<TemplateElement>) -> Seq<TemplateElementV> {
    v.map_values(|e: TemplateElement| e@)
}

impl View for Template {
    type V = TemplateV;

    open spec fn view(&self) -> TemplateV {
        TemplateV {
            delimiter: self.delimiter,
            elements: elements_view(self.elements@),
            source_info: self.source_info,
        }
    }
}

/// The attribute names that a cookie query can ask for.
#[derive(Clone, Copy, Debug, PartialEq, Eq)]
pub enum CookieAttributeKind {
    Value,
    Expires,
    MaxAge,
    Domain,
    Path,
    Secure,
    HttpOnly,
    SameSite,
}

/// A cookie attribute name, as written.
#[derive(Clone, Debug, PartialEq, Eq)]
pub enum CookieAttributeName {
    Value(String),
    Expires(String),
    MaxAge(String),
    Domain(String),
    Path(String),
    Secure(String),
    HttpOnly(String),
    SameSite(String),
}

pub struct CookieAttributeNameV {
    pub kind: CookieAttributeKind,
    pub text: Seq<char>,
}

impl View for CookieAttributeName {
    type V = CookieAttributeNameV;

    open spec fn view(&self) -> CookieAttributeNameV {
        match self {
            CookieAttributeName::Value(s) => CookieAttributeNameV { kind: CookieAttributeKind::Value, text: s@ },
            CookieAttributeName::Expires(s) => CookieAttributeNameV { kind: CookieAttributeKind::Expires, text: s@ },
            CookieAttributeName::MaxAge(s) => CookieAttributeNameV { kind: CookieAttributeKind::MaxAge, text: s@ },
            CookieAttributeName::Domain(s) => CookieAttributeNameV { kind: CookieAttributeKind::Domain, text: s@ },
            CookieAttributeName::Path(s) => CookieAttributeNameV { kind: CookieAttributeKind::Path, text: s@ },
            CookieAttributeName::Secure(s) => CookieAttributeNameV { kind: CookieAttributeKind::Secure, text: s@ },
            CookieAttributeName::HttpOnly(s) => CookieAttributeNameV { kind: CookieAttributeKind::HttpOnly, text: s@ },
            CookieAttributeName::SameSite(s) => CookieAttributeNameV { kind: CookieAttributeKind::SameSite, text: s@ },
        }
    }
}

#[derive(Clone, Debug, PartialEq, Eq)]
pub struct CookieAttribute {
    pub space0: Whitespace,
    pub name: CookieAttributeName,
    pub space1: Whitespace,
}

pub struct CookieAttributeV {
    pub space0: WhitespaceV,
    pub name: CookieAttributeNameV,
    pub space1: WhitespaceV,
}

impl View for CookieAttribute {
    type V = CookieAttributeV;

    open spec fn view(&self) -> CookieAttributeV {
        CookieAttributeV { space0: self.space0@, name: self.name@, space1: self.space1@ }
    }
}

#[derive(Clone, Debug, PartialEq, Eq)]
pub struct CookiePath {
    pub name: Template,
    pub attribute: Option<CookieAttribute>,
}

pub struct CookiePathV {
    pub name: TemplateV,
    pub attribute: Option<CookieAttributeV>,
}

impl View for CookiePath {
    type V = CookiePathV;

    open spec fn view(&self) -> CookiePathV {
        CookiePathV {
            name: self.name@,
            attribute: match self.attribute {
                Some(a) => Some(a@),
                None => None,
            },
        }
    }
}

/// A regular expression literal, held by its pattern, which compiles.
#[derive(Clone, Debug, PartialEq, Eq)]
pub struct Regex {
    pub source: String,
}

impl View for Regex {
    type V = Seq<char>;

    open spec fn view(&self) -> Seq<char> {
        self.source@
    }
}

#[derive(Clone, Debug, PartialEq, Eq)]
pub enum RegexValue {
    Template(Template),
    Regex(Regex),
}

pub enum RegexValueV {
    Template(TemplateV),
    Regex(Seq<char>),
}

impl View for RegexValue {
    type V = RegexValueV;

    open spec fn view(&self) -> RegexValueV {
        match self {
            RegexValue::Template(t) => RegexValueV::Template(t@),
            RegexValue::Regex(r) => RegexValueV::Regex(r@),
        }
    }
}

#[derive(Clone, Copy, Debug, PartialEq, Eq)]
pub enum CertificateAttributeName {
    Subject,
    Issuer,
    StartDate,
    ExpireDate,
    SerialNumber,
}

impl View for CertificateAttributeName {
    type V = CertificateAttributeName;

    open spec fn view(&self) -> CertificateAttributeName {
        *self
    }
}

#[derive(Clone, Debug, PartialEq, Eq)]
pub enum QueryValue {
    Status,
    Url,
    Header { space0: Whitespace, name: Template },
    Cookie { space0: Whitespace, expr: CookiePath },
    Body,
    Xpath { space0: Whitespace, expr: Template },
    Jsonpath { space0: Whitespace, expr: Template },
    Regex { space0: Whitespace, value: RegexValue },
    Variable { space0: Whitespace, name: Template },
    Duration,
    Bytes,
    Sha256,
    Blake3,
    Certificate { space0: Whitespace, attribute_name: CertificateAttributeName },
}

pub enum QueryValueV {
    Status,
    Url,
    Header { space0: WhitespaceV, name: TemplateV },
    Cookie { space0: WhitespaceV, expr: CookiePathV },
    Body,
    Xpath { space0: WhitespaceV, expr: TemplateV },
    Jsonpath { space0: WhitespaceV, expr: TemplateV },
    Regex { space0: WhitespaceV, value: RegexValueV },
    Variable { space0: WhitespaceV, name: TemplateV },
    Duration,
    Bytes,
    Sha256,
    Blake3,
    Certificate { space0: WhitespaceV, attribute_name: CertificateAttributeName },
}

impl View for QueryValue {
    type V = QueryValueV;

    open spec fn view(&self) -> QueryValueV {
        match self {
            QueryValue::Status => QueryValueV::Status,
            QueryValue::Url => QueryValueV::Url,
            QueryValue::Header { space0, name } => QueryValueV::Header { space0: space0@, name: name@ },
            QueryValue::Cookie { space0, expr } => QueryValueV::Cookie { space0: space0@, expr: expr@ },
            QueryValue::Body => QueryValueV::Body,
            QueryValue::Xpath { space0, expr } => QueryValueV::Xpath { space0: space0@, expr: expr@ },
            QueryValue::Jsonpath { space0, expr } => QueryValueV::Jsonpath { space0: space0@, expr: expr@ },
            QueryValue::Regex { space0, value } => QueryValueV::Regex { space0: space0@, value: value@ },
            QueryValue::Variable { space0, name } => QueryValueV::Variable { space0: space0@, name: name@ },
            QueryValue::Duration => QueryValueV::Duration,
            QueryValue::Bytes => QueryValueV::Bytes,
            QueryValue::Sha256 => QueryValueV::Sha256,
            QueryValue::Blake3 => QueryValueV::Blake3,
            QueryValue::Certificate { space0, attribute_name } => QueryValueV::Certificate {
                space0: space0@,
                attribute_name: *attribute_name,
            },
        }
    }
}

#[derive(Clone, Debug, PartialEq, Eq)]
pub struct Query {
    pub source_info: SourceInfo,
    pub value: QueryValue,
}

pub struct QueryV {
    pub source_info: SourceInfo,
    pub value: QueryValueV,
}

impl View for Query {
    type V = QueryV;

    open spec fn view(&self) -> QueryV {
        QueryV { source_info: self.source_info, value: self.value@ }
    }
}

/// The filters that take no argument.
#[derive(Clone, Copy, Debug, PartialEq, Eq)]
pub enum FilterValue {
    Base64Decode,
    Base64Encode,
    Count,
    DaysAfterNow,
    DaysBeforeNow,
    HtmlEscape,
    HtmlUnescape,
    Location,
    ToFloat,
    ToHex,
    ToInt,
    UrlDecode,
    UrlEncode,
    Utf8Decode,
    Utf8Encode,
}

impl View for FilterValue {
    type V = FilterValue;

    open spec fn view(&self) -> FilterValue {
        *self
    }
}

#[derive(Clone, Copy, Debug, PartialEq, Eq)]
pub struct Filter {
    pub source_info: SourceInfo,
    pub value: FilterValue,
}

impl View for Filter {
    type V = Filter;

    open spec fn view(&self) -> Filter {
        *self
    }
}

} // verus!
