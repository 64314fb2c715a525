//! The header and the closing section of a report as they are read from its
//! markup, each with a builder that collects its fields one by one.

use vstd::prelude::*;
use crate::error::Field;
use crate::header::{HeaderFields, HeaderFieldsView};
use crate::record::ExtractedInfo;

verus! {

/// The header of a report. The subject is optional.
#[derive(Debug)]
pub struct HeaderInfo {
    pub province: String,
    pub district: String,
    pub school: String,
    pub subject: Option<String>,
}

/// A header as plain text.
pub struct HeaderInfoView {
    pub province: Seq<char>,
    pub district: Seq<char>,
    pub school: Seq<char>,
    pub subject: Option<Seq<char>>,
}

impl View for HeaderInfo {
    type V = HeaderInfoView;

    open spec fn view(&self) -> HeaderInfoView {
        HeaderInfoView {
            province: self.province@,
            district: self.district@,
            school: self.school@,
            subject: match self.subject {
                Some(s) => Some(s@),
                None => None,
            },
        }
    }
}

/// The fields of a header as far as they have been found. For the subject,
/// `Some(None)` says that the report is known to have none.
#[derive(Debug)]
pub struct HeaderInfoBuilder {
    pub province: Option<String>,
    pub district: Option<String>,
    pub school: Option<String>,
    pub subject: Option<Option<String>>,
}

/// A header in the making as plain text.
pub struct HeaderDraft {
    pub province: Option<Seq<char>>,
    pub district: Option<Seq<char>>,
    pub school: Option<Seq<char>>,
    pub subject: Option<Option<Seq<char>>>,
}

/// The text of an optional string.
pub open spec fn text_view(s: Option<String>) -> Option<Seq<char>> {
    match s {
        Some(t) => Some(t@),
        None => None,
    }
}

impl View for HeaderInfoBuilder {
    type V = HeaderDraft;

    open spec fn view(&self) -> HeaderDraft {
        HeaderDraft {
            province: text_view(self.province),
            district: text_view(self.district),
            school: text_view(self.school),
            subject: match self.subject {
                Some(s) => Some(text_view(s)),
                None => None,
            },
        }
    }
}

impl HeaderDraft {
    /// A draft without any field.
    pub open spec fn empty() -> HeaderDraft {
        HeaderDraft { province: None, district: None, school: None, subject: None }
    }

    /// Whether province, district and school are there.
    pub open spec fn has_core(self) -> bool {
        self.province is Some && self.district is Some && self.school is Some
    }

    /// Whether every field is there.
    pub open spec fn complete(self) -> bool {
        self.has_core() && self.subject is Some
    }

    /// The first field that is not there yet, in the order province, district,
    /// school, subject.
    pub open spec fn first_missing(self) -> Field {
        if self.province is None {
            Field::Province
        } else if self.district is None {
            Field::District
        } else if self.school is None {
            Field::School
        } else {
            Field::Subject
        }
    }

    /// The header that a complete draft makes.
    pub open spec fn built(self) -> HeaderInfoView {
        HeaderInfoView {
            province: self.province->0,
            district: self.district->0,
            school: self.school->0,
            subject: self.subject->0,
        }
    }
}

impl HeaderInfoBuilder {
    /// A builder without any field.
    pub fn create_empty() -> (r: HeaderInfoBuilder)
        ensures
            r@ == HeaderDraft::empty(),
    {
        HeaderInfoBuilder { province: None, district: None, school: None, subject: None }
    }

    /// Sets the province.
    pub fn province(&mut self, value: String)
        ensures
            final(self)@ == (HeaderDraft { province: Some(value@), ..old(self)@ }),
    {
        self.province = Some(value);
    }

    /// Sets the district.
    pub fn district(&mut self, value: String)
        ensures
            final(self)@ == (HeaderDraft { district: Some(value@), ..old(self)@ }),
    {
        self.district = Some(value);
    }

    /// Sets the school.
    pub fn school(&mut self, value: String)
        ensures
            final(self)@ == (HeaderDraft { school: Some(value@), ..old(self)@ }),
    {
        self.school = Some(value);
    }

    /// Sets the subject, or says that there is none.
    pub fn subject(&mut self, value: Option<String>)
        ensures
            final(self)@ == (HeaderDraft { subject: Some(text_view(value)), ..old(self)@ }),
    {
        self.subject = Some(value);
    }

    /// Whether province, district and school are there.
    pub fn has_core(&self) -> (r: bool)
        ensures
            r == self@.has_core(),
    {
        self.province.is_some() && self.district.is_some() && self.school.is_some()
    }

    /// The first field that is not there yet.
    pub fn first_missing(&self) -> (r: Field)
        ensures
            r == self@.first_missing(),
    {
        if self.province.is_none() {
            Field::Province
        } else if self.district.is_none() {
            Field::District
        } else if self.school.is_none() {
            Field::School
        } else {
            Field::Subject
        }
    }

    /// The header, where every field is there.
    pub fn build(&self) -> (r: Option<HeaderInfo>)
        ensures
            r is Some <==> self@.complete(),
            r matches Some(h) ==> h@ == self@.built(),
    {
        match (&self.province, &self.district, &self.school, &self.subject) {
            (Some(province), Some(district), Some(school), Some(subject)) => Some(
                HeaderInfo {
                    province: province.clone(),
                    district: district.clone(),
                    school: school.clone(),
                    subject: match subject {
                        Some(s) => Some(s.clone()),
                        None => None,
                    },
                },
            ),
            _ => None,
        }
    }
}

/// The closing section of a report.
#[derive(Debug)]
pub struct SectionG {
    pub areas_that_require_intervention_and_support: String,
    pub recommendations: String,
}

/// A closing section as plain text.
pub struct SectionGView {
    pub areas: Seq<char>,
    pub recommendations: Seq<char>,
}

impl View for SectionG {
    type V = SectionGView;

    open spec fn view(&self) -> SectionGView {
        SectionGView {
            areas: self.areas_that_require_intervention_and_support@,
            recommendations: self.recommendations@,
        }
    }
}

/// The fields of a closing section as far as they have been found.
#[derive(Debug)]
pub struct SectionGBuilder {
    pub areas_that_require_intervention_and_support: Option<String>,
    pub recommendations: Option<String>,
}

/// A closing section in the making as plain text.
pub struct SectionDraft {
    pub areas: Option<Seq<char>>,
    pub recommendations: Option<Seq<char>>,
}

impl View for SectionGBuilder {
    type V = SectionDraft;

    open spec fn view(&self) -> SectionDraft {
        SectionDraft {
            areas: text_view(self.areas_that_require_intervention_and_support),
            recommendations: text_view(self.recommendations),
        }
    }
}

impl SectionDraft {
    /// A draft without any field.
    pub open spec fn empty() -> SectionDraft {
        SectionDraft { areas: None, recommendations: None }
    }

    /// Whether both fields are there.
    pub open spec fn complete(self) -> bool {
        self.areas is Some && self.recommendations is Some
    }

    /// The first field that is not there yet.
    pub open spec fn first_missing(self) -> Field {
        if self.areas is None {
            Field::AreasThatRequireIntervention
        } else {
            Field::Recommendations
        }
    }

    /// The section that a complete draft makes.
    pub open spec fn built(self) -> SectionGView {
        SectionGView { areas: self.areas->0, recommendations: self.recommendations->0 }
    }
}

impl SectionGBuilder {
    /// A builder without any field.
    pub fn create_empty() -> (r: SectionGBuilder)
        ensures
            r@ == SectionDraft::empty(),
    {
        SectionGBuilder { areas_that_require_intervention_and_support: None, recommendations: None }
    }

    /// Sets the areas that require intervention and support.
    pub fn areas_that_require_intervention_and_support(&mut self, value: String)
        ensures
            final(self)@ == (SectionDraft { areas: Some(value@), ..old(self)@ }),
    {
        self.areas_that_require_intervention_and_support = Some(value);
    }

    /// Sets the recommendations.
    pub fn recommendations(&mut self, value: String)
        ensures
            final(self)@ == (SectionDraft { recommendations: Some(value@), ..old(self)@ }),
    {
        self.recommendations = Some(value);
    }

    /// The first field that is not there yet.
    pub fn first_missing(&self) -> (r: Field)
        ensures
            r == self@.first_missing(),
    {
        if self.areas_that_require_intervention_and_support.is_none() {
            Field::AreasThatRequireIntervention
        } else {
            Field::Recommendations
        }
    }

    /// The section, where both fields are there.
    pub fn build(&self) -> (r: Option<SectionG>)
        ensures
            r is Some <==> self@.complete(),
            r matches Some(s) ==> s@ == self@.built(),
    {
        match (&self.areas_that_require_intervention_and_support, &self.recommendations) {
            (Some(areas), Some(recommendations)) => Some(
                SectionG {
                    areas_that_require_intervention_and_support: areas.clone(),
                    recommendations: recommendations.clone(),
                },
            ),
            _ => None,
        }
    }
}

/// The header fields that a header read from markup gives: a report without
/// subject has an empty subject field, as any field that was not found.
pub open spec fn fields_of(h: HeaderInfoView) -> HeaderFieldsView {
    HeaderFieldsView {
        province: h.province,
        district: h.district,
        school: h.school,
        subject: match h.subject {
            Some(s) => s,
            None => Seq::empty(),
        },
    }
}

/// The names of the columns of a record that is made of a header and a
/// closing section.
pub open spec fn report_names() -> Seq<Seq<char>> {
    seq![
        "Province"@,
        "District"@,
        "School"@,
        "Subject"@,
        "Areas That Require Intervention And Support"@,
        "Recommendations For Improvement"@,
        "File"@,
    ]
}

impl ExtractedInfo {
    /// The row of column names that goes with the records made by
    /// `from_parts`.
    pub fn report_header_record() -> (r: Vec<&'static str>)
        ensures
            r.deep_view() == report_names(),
    {
        let mut r: Vec<&'static str> = Vec::new();
        r.push(Field::Province.name());
        r.push(Field::District.name());
        r.push(Field::School.name());
        r.push(Field::Subject.name());
        r.push(Field::AreasThatRequireIntervention.name());
        r.push(Field::Recommendations.name());
        r.push("File");
        assert(r.deep_view() =~= report_names());
        r
    }

    /// The record of a report of which the header and the closing section
    /// have been read from its markup.
    pub fn from_parts(header: HeaderInfo, sectiong: SectionG, file: String) -> (r: ExtractedInfo)
        ensures
            r@.header == fields_of(header@),
            r@.body == seq![sectiong@.areas, sectiong@.recommendations],
            r@.file == file@,
    {
        let subject = match header.subject {
            Some(s) => s,
            None => String::new(),
        };
        let fields = HeaderFields {
            province: header.province,
            district: header.district,
            school: header.school,
            subject,
        };
        let mut body: Vec<String> = Vec::new();
        body.push(sectiong.areas_that_require_intervention_and_support);
        body.push(sectiong.recommendations);
        assert(body.deep_view() =~= seq![sectiong@.areas, sectiong@.recommendations]);
        ExtractedInfo::assemble(fields, body, file)
    }
}

} // verus!
