//! Export settings (formats, batch sizes, named export profiles) and brand
//! kits (palette + fonts + logo saved under a name).

use vstd::prelude::*;
use crate::document::opt_str_view;
use crate::editor::PaintApp;
use crate::i18n::{t, t_spec};
use crate::text::{parse_u32, parse_u32_spec, str_equal, trim, trimmed};

verus! {

/// Raster export formats.
#[derive(Clone, Copy, Debug, PartialEq, Eq, Structural)]
pub enum ExportFormat {
    Png,
    Jpg,
    WebP,
    Pdf,
}

/// State of the batch-export panel: the ticked sizes are multiples of the
/// document size, plus an optional custom width (height from the ratio).
pub struct BatchExportState {
    pub format: ExportFormat,
    pub scale_half: bool,
    pub scale_1: bool,
    pub scale_2: bool,
    pub scale_3: bool,
    pub custom_enabled: bool,
    pub custom_width: String,
}

impl BatchExportState {
    /// PNG at 1× and 2×.
    pub fn default() -> (r: BatchExportState)
        ensures
            r.format == ExportFormat::Png,
            !r.scale_half,
            r.scale_1,
            r.scale_2,
            !r.scale_3,
            !r.custom_enabled,
            r.custom_width@ == Seq::<char>::empty(),
    {
        BatchExportState {
            format: ExportFormat::Png,
            scale_half: false,
            scale_1: true,
            scale_2: true,
            scale_3: false,
            custom_enabled: false,
            custom_width: String::new(),
        }
    }
}

/// A named export profile.
pub struct ExportProfile {
    pub name: String,
    pub format: ExportFormat,
    pub jpeg_quality: u8,
    pub scale_half: bool,
    pub scale_1: bool,
    pub scale_2: bool,
    pub scale_3: bool,
    pub custom_enabled: bool,
    pub custom_width: String,
}

/// A brand kit: palette, fonts and optional logo (PNG, base64).
pub struct BrandKit {
    pub name: String,
    pub colors: Vec<[u8; 3]>,
    pub fonts: Vec<String>,
    pub logo_png_b64: Option<String>,
}


/// Value of an export profile.
pub struct ExportProfileView {
    pub name: Seq<char>,
    pub format: ExportFormat,
    pub jpeg_quality: u8,
    pub scale_half: bool,
    pub scale_1: bool,
    pub scale_2: bool,
    pub scale_3: bool,
    pub custom_enabled: bool,
    pub custom_width: Seq<char>,
}

impl View for ExportProfile {
    type V = ExportProfileView;

    open spec fn view(&self) -> ExportProfileView {
        ExportProfileView {
            name: self.name@,
            format: self.format,
            jpeg_quality: self.jpeg_quality,
            scale_half: self.scale_half,
            scale_1: self.scale_1,
            scale_2: self.scale_2,
            scale_3: self.scale_3,
            custom_enabled: self.custom_enabled,
            custom_width: self.custom_width@,
        }
    }
}

impl ExportProfile {
    /// An independent copy.
    pub fn copy(&self) -> (r: ExportProfile)
        ensures
            r@ == self@,
    {
        ExportProfile {
            name: self.name.clone(),
            format: self.format,
            jpeg_quality: self.jpeg_quality,
            scale_half: self.scale_half,
            scale_1: self.scale_1,
            scale_2: self.scale_2,
            scale_3: self.scale_3,
            custom_enabled: self.custom_enabled,
            custom_width: self.custom_width.clone(),
        }
    }
}

/// Values of a list of export profiles.
pub open spec fn profiles_view(v: Seq<ExportProfile>) -> Seq<ExportProfileView> {
    v.map_values(|p: ExportProfile| p@)
}

/// Profiles not named `name`, in order.
pub open spec fn profiles_without(s: Seq<ExportProfileView>, name: Seq<char>) -> Seq<ExportProfileView> {
    s.filter(|p: ExportProfileView| p.name != name)
}

/// Value of a brand kit.
pub struct BrandKitView {
    pub name: Seq<char>,
    pub colors: Seq<[u8; 3]>,
    pub fonts: Seq<Seq<char>>,
    pub logo_png_b64: Option<Seq<char>>,
}

/// Values of a list of strings.
pub open spec fn strings_view(v: Seq<String>) -> Seq<Seq<char>> {
    v.map_values(|s: String| s@)
}

impl View for BrandKit {
    type V = BrandKitView;

    open spec fn view(&self) -> BrandKitView {
        BrandKitView {
            name: self.name@,
            colors: self.colors@,
            fonts: strings_view(self.fonts@),
            logo_png_b64: opt_str_view(self.logo_png_b64),
        }
    }
}

fn copy_colors(v: &Vec<[u8; 3]>) -> (r: Vec<[u8; 3]>)
    ensures
        r@ == v@,
{
    let mut r: Vec<[u8; 3]> = Vec::new();
    let mut i: usize = 0;
    while i < v.len()
        invariant
            i <= v@.len(),
            r@ == v@.subrange(0, i as int),
        decreases v@.len() - i,
    {
        r.push(v[i]);
        i = i + 1;
        assert(r@ =~= v@.subrange(0, i as int));
    }
    assert(v@.subrange(0, v@.len() as int) =~= v@);
    r
}

fn copy_strings(v: &Vec<String>) -> (r: Vec<String>)
    ensures
        strings_view(r@) == strings_view(v@),
{
    let mut r: Vec<String> = Vec::new();
    let mut i: usize = 0;
    while i < v.len()
        invariant
            i <= v@.len(),
            r@.len() == i,
            forall|k: int| 0 <= k < i ==> #[trigger] r@[k]@ == v@[k]@,
        decreases v@.len() - i,
    {
        r.push(v[i].clone());
        i = i + 1;
    }
    assert(strings_view(r@) =~= strings_view(v@));
    r
}

impl BrandKit {
    /// An independent copy.
    pub fn copy(&self) -> (r: BrandKit)
        ensures
            r@ == self@,
    {
        BrandKit {
            name: self.name.clone(),
            colors: copy_colors(&self.colors),
            fonts: copy_strings(&self.fonts),
            logo_png_b64: match &self.logo_png_b64 {
                Some(l) => Some(l.clone()),
                None => None,
            },
        }
    }
}

/// Values of a list of brand kits.
pub open spec fn kits_view(v: Seq<BrandKit>) -> Seq<BrandKitView> {
    v.map_values(|k: BrandKit| k@)
}

/// Kits not named `name`, in order.
pub open spec fn kits_without(s: Seq<BrandKitView>, name: Seq<char>) -> Seq<BrandKitView> {
    s.filter(|k: BrandKitView| k.name != name)
}

/// Position of the first kit named `name`, if any.
pub open spec fn first_kit_named(s: Seq<BrandKitView>, name: Seq<char>) -> Option<int>
    decreases s.len(),
{
    if s.len() == 0 {
        None
    } else {
        match first_kit_named(s.drop_last(), name) {
            Some(i) => Some(i),
            None => if s.last().name == name {
                Some(s.len() - 1)
            } else {
                None
            },
        }
    }
}

/// Logo kept when a kit named `name` is saved again.
pub open spec fn kept_logo(s: Seq<BrandKitView>, name: Seq<char>) -> Option<Seq<char>> {
    match first_kit_named(s, name) {
        Some(i) => s[i].logo_png_b64,
        None => None,
    }
}

/// The fonts of a new kit: the chosen system font, if any.
pub open spec fn kit_fonts(font: Option<Seq<char>>) -> Seq<Seq<char>> {
    match font {
        Some(f) => seq![f],
        None => Seq::empty(),
    }
}

/// After saving, exactly one entry carries the saved name: the new one,
/// at the end; the other entries keep their order.
pub proof fn law_saved_profile_is_unique(s: Seq<ExportProfileView>, p: ExportProfileView)
    ensures
        ({
            let r = profiles_without(s, p.name).push(p);
            &&& r.last() == p
            &&& forall|i: int| 0 <= i < r.len() - 1 ==> #[trigger] r[i].name != p.name
        }),
{
    let r = profiles_without(s, p.name);
    assert forall|i: int| 0 <= i < r.len() implies #[trigger] r[i].name != p.name by {
        s.lemma_filter_pred(|q: ExportProfileView| q.name != p.name, i);
    }
    assert forall|i: int| 0 <= i < r.push(p).len() - 1 implies #[trigger] r.push(p)[i].name != p.name by {
        assert(r.push(p)[i] == r[i]);
    }
}

/// Saving a brand kit again under the same name keeps a single kit of that
/// name, and keeps the logo it had.
pub proof fn law_resaved_kit_keeps_logo(s: Seq<BrandKitView>, k: BrandKitView)
    requires
        k.logo_png_b64 == kept_logo(s, k.name),
    ensures
        ({
            let r = kits_without(s, k.name).push(k);
            &&& forall|i: int| 0 <= i < r.len() - 1 ==> #[trigger] r[i].name != k.name
            &&& first_kit_named(s, k.name) matches Some(j) ==> r.last().logo_png_b64
                == s[j].logo_png_b64
        }),
{
    let r = kits_without(s, k.name);
    assert forall|i: int| 0 <= i < r.push(k).len() - 1 implies #[trigger] r.push(k)[i].name != k.name by {
        assert(r.push(k)[i] == r[i]);
        s.lemma_filter_pred(|q: BrandKitView| q.name != k.name, i);
    }
}

/// Size with both sides positive, added unless already present.
pub open spec fn push_size(s: Seq<(u32, u32)>, size: (u32, u32)) -> Seq<(u32, u32)> {
    if size.0 > 0 && size.1 > 0 && !s.contains(size) {
        s.push(size)
    } else {
        s
    }
}

/// Sizes of a batch export of a `dw × dh` document: ½×, 1×, 2×, 3× when
/// ticked (½ rounded half up), then the custom size, without duplicates or
/// empty sizes.
pub open spec fn batch_sizes(
    dw: u32,
    dh: u32,
    half: bool,
    one: bool,
    two: bool,
    three: bool,
    custom: Option<(u32, u32)>,
) -> Seq<(u32, u32)> {
    let s0 = Seq::<(u32, u32)>::empty();
    let s1 = if half {
        push_size(s0, (((dw + 1) / 2) as u32, ((dh + 1) / 2) as u32))
    } else {
        s0
    };
    let s2 = if one {
        push_size(s1, (dw, dh))
    } else {
        s1
    };
    let s3 = if two {
        push_size(s2, ((dw * 2) as u32, (dh * 2) as u32))
    } else {
        s2
    };
    let s4 = if three {
        push_size(s3, ((dw * 3) as u32, (dh * 3) as u32))
    } else {
        s3
    };
    match custom {
        Some(c) => push_size(s4, c),
        None => s4,
    }
}

fn push_size_exec(v: &mut Vec<(u32, u32)>, w: u32, h: u32)
    ensures
        final(v)@ == push_size(old(v)@, (w, h)),
{
    if w == 0 || h == 0 {
        return;
    }
    let mut i: usize = 0;
    while i < v.len()
        invariant
            i <= v@.len(),
            forall|k: int| 0 <= k < i ==> v@[k] != (w, h),
        decreases v@.len() - i,
    {
        if v[i].0 == w && v[i].1 == h {
            return;
        }
        i = i + 1;
    }
    v.push((w, h));
}

impl BatchExportState {
    /// The custom width, when its text (trimmed) is a valid `u32`.
    pub fn custom_width_value(&self) -> (r: Option<u32>)
        ensures
            r == parse_u32_spec(trimmed(self.custom_width@)),
    {
        let s = trim(self.custom_width.as_str());
        parse_u32(s.as_str())
    }
}

impl PaintApp {
    /// Sizes ticked in the batch-export panel, in pixels, derived from the
    /// document size; `custom` is the custom size (its height follows the
    /// document ratio) when that option is enabled and valid.
    pub fn batch_export_target_sizes(&self, custom: Option<(u32, u32)>) -> (r: Vec<(u32, u32)>)
        requires
            self.doc@.wf(),
        ensures
            r@ == batch_sizes(
                self.doc.size.0,
                self.doc.size.1,
                self.batch_export.scale_half,
                self.batch_export.scale_1,
                self.batch_export.scale_2,
                self.batch_export.scale_3,
                custom,
            ),
    {
        let (dw, dh) = self.doc.size;
        let mut sizes: Vec<(u32, u32)> = Vec::new();
        if self.batch_export.scale_half {
            push_size_exec(&mut sizes, (dw + 1) / 2, (dh + 1) / 2);
        }
        if self.batch_export.scale_1 {
            push_size_exec(&mut sizes, dw, dh);
        }
        if self.batch_export.scale_2 {
            push_size_exec(&mut sizes, dw * 2, dh * 2);
        }
        if self.batch_export.scale_3 {
            push_size_exec(&mut sizes, dw * 3, dh * 3);
        }
        match custom {
            Some((w, h)) => push_size_exec(&mut sizes, w, h),
            None => {},
        }
        sizes
    }

    /// Saves the batch-export settings and JPEG quality as the profile
    /// `name` (trimmed), replacing a profile of the same name; a blank name
    /// is refused with a message.
    pub fn save_export_profile(&mut self, name: String)
        ensures
            trimmed(name@).len() == 0 ==> (final(self).status matches Some(m) && m@ == t_spec(old(self).lang, "Donne un nom au profil.", "Give the profile a name.")@),
            trimmed(name@).len() > 0 ==> (final(self).status matches Some(m) && m@ == t_spec(old(self).lang, "Profil d'export enregistré.", "Export profile saved.")@),
            final(self).same_settings(&(PaintApp { export_profiles: final(self).export_profiles, ..*old(self) })),
            final(self).same_edit_state(old(self)),
            trimmed(name@).len() == 0 ==> final(self).export_profiles@ == old(self).export_profiles@
                && final(self).status is Some && !final(self).status_error,
            trimmed(name@).len() > 0 ==> {
                &&& profiles_view(final(self).export_profiles@) == profiles_without(
                    profiles_view(old(self).export_profiles@),
                    trimmed(name@),
                ).push(
                    ExportProfileView {
                        name: trimmed(name@),
                        format: old(self).batch_export.format,
                        jpeg_quality: old(self).jpeg_quality,
                        scale_half: old(self).batch_export.scale_half,
                        scale_1: old(self).batch_export.scale_1,
                        scale_2: old(self).batch_export.scale_2,
                        scale_3: old(self).batch_export.scale_3,
                        custom_enabled: old(self).batch_export.custom_enabled,
                        custom_width: old(self).batch_export.custom_width@,
                    },
                )
                &&& final(self).status is Some
                &&& !final(self).status_error
            },
            final(self).doc@ == old(self).doc@,
            final(self).history@ == old(self).history@,
    {
        let tn = trim(name.as_str());
        if tn.unicode_len() == 0 {
            self.info(String::from_str(t(self.lang, "Donne un nom au profil.", "Give the profile a name.")));
            return;
        }
        let profile = ExportProfile {
            name: tn,
            format: self.batch_export.format,
            jpeg_quality: self.jpeg_quality,
            scale_half: self.batch_export.scale_half,
            scale_1: self.batch_export.scale_1,
            scale_2: self.batch_export.scale_2,
            scale_3: self.batch_export.scale_3,
            custom_enabled: self.batch_export.custom_enabled,
            custom_width: self.batch_export.custom_width.clone(),
        };
        self.remove_profiles_named(profile.name.as_str());
        let ghost pv = profile@;
        let ghost before = profiles_view(self.export_profiles@);
        self.export_profiles.push(profile);
        proof {
            assert(profiles_view(self.export_profiles@) =~= before.push(pv));
        }
        self.info(String::from_str(t(self.lang, "Profil d'export enregistré.", "Export profile saved.")));
    }

    fn remove_profiles_named(&mut self, name: &str)
        ensures
            profiles_view(final(self).export_profiles@) == profiles_without(
                profiles_view(old(self).export_profiles@),
                name@,
            ),
            final(self).same_settings(&(PaintApp { export_profiles: final(self).export_profiles, ..*old(self) })),
            final(self).same_edit_state(old(self)),
            final(self).same_status(old(self)),
    {
        let ghost s = profiles_view(self.export_profiles@);
        let mut kept: Vec<ExportProfile> = Vec::new();
        let mut i: usize = 0;
        while i < self.export_profiles.len()
            invariant
                s == profiles_view(self.export_profiles@),
                i <= s.len(),
                profiles_view(kept@) == profiles_without(s.subrange(0, i as int), name@),
            decreases s.len() - i,
        {
            let p = self.export_profiles[i].copy();
            proof {
                let pre = s.subrange(0, i as int);
                let nxt = s.subrange(0, i + 1);
                assert(nxt.drop_last() =~= pre);
                assert(nxt.last() == p@);
                reveal_with_fuel(Seq::filter, 1);
            }
            if !str_equal(p.name.as_str(), name) {
                let ghost kv = profiles_view(kept@);
                kept.push(p);
                assert(profiles_view(kept@) =~= kv.push(self.export_profiles@[i as int]@));
            }
            i = i + 1;
        }
        assert(s.subrange(0, s.len() as int) =~= s);
        self.export_profiles = kept;
    }

    /// Applies an export profile to the batch-export panel.
    pub fn apply_export_profile(&mut self, profile: &ExportProfile)
        ensures
            final(self).same_settings(&(PaintApp { batch_export: final(self).batch_export, jpeg_quality: final(self).jpeg_quality, ..*old(self) })),
            final(self).same_edit_state(old(self)),
            final(self).batch_export.format == profile.format,
            final(self).jpeg_quality == profile.jpeg_quality,
            final(self).batch_export.scale_half == profile.scale_half,
            final(self).batch_export.scale_1 == profile.scale_1,
            final(self).batch_export.scale_2 == profile.scale_2,
            final(self).batch_export.scale_3 == profile.scale_3,
            final(self).batch_export.custom_enabled == profile.custom_enabled,
            final(self).batch_export.custom_width@ == profile.custom_width@,
            final(self).doc@ == old(self).doc@,
            final(self).history@ == old(self).history@,
            final(self).export_profiles@ == old(self).export_profiles@,
    {
        self.batch_export.format = profile.format;
        self.jpeg_quality = profile.jpeg_quality;
        self.batch_export.scale_half = profile.scale_half;
        self.batch_export.scale_1 = profile.scale_1;
        self.batch_export.scale_2 = profile.scale_2;
        self.batch_export.scale_3 = profile.scale_3;
        self.batch_export.custom_enabled = profile.custom_enabled;
        self.batch_export.custom_width = profile.custom_width.clone();
    }

    /// Deletes the export profiles named `name`.
    pub fn delete_export_profile(&mut self, name: &str)
        ensures
            final(self).same_settings(&(PaintApp { export_profiles: final(self).export_profiles, ..*old(self) })),
            final(self).same_edit_state(old(self)),
            final(self).same_status(old(self)),
            profiles_view(final(self).export_profiles@) == profiles_without(
                profiles_view(old(self).export_profiles@),
                name@,
            ),
            final(self).doc@ == old(self).doc@,
            final(self).history@ == old(self).history@,
    {
        self.remove_profiles_named(name);
    }

    fn remove_kits_named(&mut self, name: &str)
        ensures
            kits_view(final(self).brand_kits@) == kits_without(kits_view(old(self).brand_kits@), name@),
            final(self).same_settings(&(PaintApp { brand_kits: final(self).brand_kits, ..*old(self) })),
            final(self).same_edit_state(old(self)),
            final(self).same_status(old(self)),
    {
        let ghost s = kits_view(self.brand_kits@);
        let mut kept: Vec<BrandKit> = Vec::new();
        let mut i: usize = 0;
        while i < self.brand_kits.len()
            invariant
                s == kits_view(self.brand_kits@),
                i <= s.len(),
                kits_view(kept@) == kits_without(s.subrange(0, i as int), name@),
            decreases s.len() - i,
        {
            let k = self.brand_kits[i].copy();
            proof {
                let pre = s.subrange(0, i as int);
                let nxt = s.subrange(0, i + 1);
                assert(nxt.drop_last() =~= pre);
                assert(nxt.last() == k@);
                reveal_with_fuel(Seq::filter, 1);
            }
            if !str_equal(k.name.as_str(), name) {
                let ghost kv = kits_view(kept@);
                kept.push(k);
                assert(kits_view(kept@) =~= kv.push(self.brand_kits@[i as int]@));
            }
            i = i + 1;
        }
        assert(s.subrange(0, s.len() as int) =~= s);
        self.brand_kits = kept;
    }

    fn find_kit(&self, name: &str) -> (r: Option<usize>)
        ensures
            r matches Some(p) ==> first_kit_named(kits_view(self.brand_kits@), name@) == Some(p as int),
            r is None ==> first_kit_named(kits_view(self.brand_kits@), name@) is None,
    {
        let ghost s = kits_view(self.brand_kits@);
        let mut i: usize = 0;
        while i < self.brand_kits.len()
            invariant
                s == kits_view(self.brand_kits@),
                i <= s.len(),
                first_kit_named(s.subrange(0, i as int), name@) is None,
            decreases s.len() - i,
        {
            let ghost pre = s.subrange(0, i as int);
            let ghost nxt = s.subrange(0, i + 1);
            assert(nxt.drop_last() =~= pre);
            if str_equal(self.brand_kits[i].name.as_str(), name) {
                proof {
                    lemma_first_kit_prefix(s, i + 1, name@);
                }
                return Some(i);
            }
            i = i + 1;
        }
        assert(s.subrange(0, s.len() as int) =~= s);
        None
    }

    /// Saves the custom palette and the chosen system font as the brand kit
    /// `name` (trimmed), replacing a kit of the same name but keeping its
    /// logo. A blank name does nothing.
    pub fn save_brand_kit(&mut self, name: String)
        ensures
            trimmed(name@).len() > 0 ==> (final(self).status matches Some(m) && m@ == t_spec(old(self).lang, "Kit de marque enregistré « ", "Brand kit saved « ")@ + trimmed(name@) + " »."@),
            final(self).same_settings(&(PaintApp { brand_kits: final(self).brand_kits, ..*old(self) })),
            final(self).same_edit_state(old(self)),
            trimmed(name@).len() == 0 ==> final(self).same_status(old(self)),
            trimmed(name@).len() == 0 ==> final(self).brand_kits@ == old(self).brand_kits@,
            trimmed(name@).len() > 0 ==> {
                &&& kits_view(final(self).brand_kits@) == kits_without(
                    kits_view(old(self).brand_kits@),
                    trimmed(name@),
                ).push(
                    BrandKitView {
                        name: trimmed(name@),
                        colors: old(self).custom_palette@,
                        fonts: kit_fonts(opt_str_view(old(self).text_font_family)),
                        logo_png_b64: kept_logo(kits_view(old(self).brand_kits@), trimmed(name@)),
                    },
                )
                &&& final(self).status is Some
                &&& !final(self).status_error
            },
            final(self).doc@ == old(self).doc@,
            final(self).history@ == old(self).history@,
            final(self).custom_palette@ == old(self).custom_palette@,
    {
        let tn = trim(name.as_str());
        if tn.unicode_len() == 0 {
            return;
        }
        let ghost s = kits_view(self.brand_kits@);
        proof {
            lemma_first_kit_in_range(s, tn@);
        }
        let logo: Option<String> = match self.find_kit(tn.as_str()) {
            Some(i) => match &self.brand_kits[i].logo_png_b64 {
                Some(l) => Some(l.clone()),
                None => None,
            },
            None => None,
        };
        self.remove_kits_named(tn.as_str());
        let mut fonts: Vec<String> = Vec::new();
        match &self.text_font_family {
            Some(f) => fonts.push(f.clone()),
            None => {},
        }
        assert(strings_view(fonts@) =~= kit_fonts(opt_str_view(self.text_font_family)));
        let kit = BrandKit {
            name: tn.clone(),
            colors: copy_colors(&self.custom_palette),
            fonts,
            logo_png_b64: logo,
        };
        let ghost kv = kit@;
        let ghost before = kits_view(self.brand_kits@);
        self.brand_kits.push(kit);
        proof {
            assert(kits_view(self.brand_kits@) =~= before.push(kv));
        }
        let mut msg = String::from_str(t(self.lang, "Kit de marque enregistré « ", "Brand kit saved « "));
        msg.append(tn.as_str());
        msg.append(" ».");
        self.info(msg);
    }

    /// Deletes the brand kits named `name`.
    pub fn delete_brand_kit(&mut self, name: &str)
        ensures
            final(self).same_settings(&(PaintApp { brand_kits: final(self).brand_kits, ..*old(self) })),
            final(self).same_edit_state(old(self)),
            final(self).same_status(old(self)),
            kits_view(final(self).brand_kits@) == kits_without(kits_view(old(self).brand_kits@), name@),
            final(self).doc@ == old(self).doc@,
            final(self).history@ == old(self).history@,
    {
        self.remove_kits_named(name);
    }

    /// Applies a brand kit: its colours replace the custom palette, and its
    /// first font, if any, becomes the text font.
    pub fn apply_brand_kit(&mut self, kit: &BrandKit)
        ensures
            final(self).status matches Some(m) && m@ == t_spec(old(self).lang, "Kit de marque appliqué « ", "Brand kit applied « ")@ + kit.name@ + " »."@,
            final(self).same_settings(&(PaintApp { custom_palette: final(self).custom_palette, text_font_family: final(self).text_font_family, ..*old(self) })),
            final(self).same_edit_state(old(self)),
            final(self).custom_palette@ == kit.colors@,
            kit@.fonts.len() > 0 ==> opt_str_view(final(self).text_font_family) == Some(kit@.fonts[0]),
            kit@.fonts.len() == 0 ==> final(self).text_font_family == old(self).text_font_family,
            final(self).status is Some,
            !final(self).status_error,
            final(self).doc@ == old(self).doc@,
            final(self).history@ == old(self).history@,
            final(self).brand_kits@ == old(self).brand_kits@,
    {
        self.custom_palette = copy_colors(&kit.colors);
        if kit.fonts.len() > 0 {
            assert(strings_view(kit.fonts@)[0] == kit.fonts@[0]@);
            self.text_font_family = Some(kit.fonts[0].clone());
        }
        let mut msg = String::from_str(t(self.lang, "Kit de marque appliqué « ", "Brand kit applied « "));
        msg.append(kit.name.as_str());
        msg.append(" ».");
        self.info(msg);
    }

    /// Sets the logo (PNG, base64) of the kit `name`; `false` when there is
    /// no such kit.
    pub fn set_brand_kit_logo(&mut self, name: &str, logo_png_b64: String) -> (r: bool)
        ensures
            final(self).same_settings(&(PaintApp { brand_kits: final(self).brand_kits, ..*old(self) })),
            final(self).same_edit_state(old(self)),
            final(self).same_status(old(self)),
            r == first_kit_named(kits_view(old(self).brand_kits@), name@) is Some,
            r ==> kits_view(final(self).brand_kits@) == kits_view(old(self).brand_kits@).update(
                first_kit_named(kits_view(old(self).brand_kits@), name@)->0,
                BrandKitView {
                    logo_png_b64: Some(logo_png_b64@),
                    ..kits_view(old(self).brand_kits@)[first_kit_named(
                        kits_view(old(self).brand_kits@),
                        name@,
                    )->0]
                },
            ),
            !r ==> final(self).brand_kits@ == old(self).brand_kits@,
            final(self).doc@ == old(self).doc@,
            final(self).history@ == old(self).history@,
    {
        match self.find_kit(name) {
            Some(i) => {
                proof {
                    lemma_first_kit_in_range(kits_view(self.brand_kits@), name@);
                }
                let ghost s = kits_view(self.brand_kits@);
                let mut k = self.brand_kits[i].copy();
                k.logo_png_b64 = Some(logo_png_b64);
                let ghost nk = k@;
                self.brand_kits.set(i, k);
                proof {
                    assert(kits_view(self.brand_kits@) =~= s.update(i as int, nk));
                }
                true
            },
            None => false,
        }
    }
}

proof fn lemma_first_kit_prefix(s: Seq<BrandKitView>, k: int, name: Seq<char>)
    requires
        0 <= k <= s.len(),
        first_kit_named(s.subrange(0, k), name) is Some,
    ensures
        first_kit_named(s, name) == first_kit_named(s.subrange(0, k), name),
    decreases s.len() - k,
{
    if k < s.len() {
        assert(s.drop_last().subrange(0, k) =~= s.subrange(0, k));
        lemma_first_kit_prefix(s.drop_last(), k, name);
    } else {
        assert(s.subrange(0, k) =~= s);
    }
}

proof fn lemma_first_kit_in_range(s: Seq<BrandKitView>, name: Seq<char>)
    ensures
        first_kit_named(s, name) matches Some(p) ==> 0 <= p < s.len() && s[p].name == name,
    decreases s.len(),
{
    if s.len() > 0 {
        lemma_first_kit_in_range(s.drop_last(), name);
    }
}

} // verus!
