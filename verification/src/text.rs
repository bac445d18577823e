//! Finding out which glyphs of the texts of an interface are to be drawn, and in what color.
use crate::entity::Entity;
use crate::extract::{spec_target_camera, target_camera};
use crate::geometry::{Color, Mat4, Rect, Vec2};
use crate::image::ImageId;
use crate::nodes::{
    lemma_with_all_concat, lemma_with_all_push, with_all, ExtractedUiNode, ExtractedUiNodes,
};
use crate::scalar::Scalar;
use vstd::prelude::*;

verus! {

/// A glyph of a text.
#[derive(Clone, Copy, PartialEq, Eq, Structural, Debug)]
pub struct Glyph {
    /// The entity that is made for the glyph.
    pub entity: Entity,
    /// The section of the text that the glyph is part of.
    pub section: usize,
    pub transform: Mat4,
    /// The part of the atlas that holds the glyph, in the scale of the text.
    pub rect: Rect,
    /// The image of the atlas.
    pub image: ImageId,
    pub atlas_size: Vec2,
}

/// A text.
#[derive(Debug)]
pub struct TextRow {
    pub stack_index: u32,
    pub size: Vec2,
    /// The colors of the sections.
    pub sections: Vec<Color>,
    /// The glyphs, if the text is drawn.
    pub glyphs: Vec<Glyph>,
    pub visible: bool,
    pub clip: Option<Rect>,
    pub camera: Option<Entity>,
}

/// The color of a glyph: that of its section. White is for glyphs that belong to none.
pub open spec fn spec_glyph_color(sections: Seq<Color>, section: usize) -> Color {
    if section == usize::MAX {
        Color::spec_white()
    } else {
        sections[section as int]
    }
}

impl TextRow {
    /// The camera that the text is drawn to. An invisible text, and one whose node is set to no
    /// size, is not drawn.
    pub open spec fn spec_drawn_to(self, default: Option<Entity>) -> Option<Entity> {
        if !self.visible || self.size.x.same(Scalar::spec_zero()) || self.size.y.same(
            Scalar::spec_zero(),
        ) {
            None
        } else {
            spec_target_camera(self.camera, default)
        }
    }

    /// The camera that the text is drawn to, if it is drawn.
    pub fn drawn_to(&self, default: Option<Entity>) -> (r: Option<Entity>)
        ensures
            r == self.spec_drawn_to(default),
    {
        let zero = Scalar::zero();
        if !self.visible || self.size.x.num_eq(zero) || self.size.y.num_eq(zero) {
            None
        } else {
            target_camera(self.camera, default)
        }
    }

    /// Whether each glyph is part of a section that is there, or of none as are all before it.
    pub open spec fn has_sections(self) -> bool {
        forall|i: int|
            0 <= i < self.glyphs@.len() ==> {
                ||| (#[trigger] self.glyphs@[i]).section < self.sections@.len()
                ||| self.glyphs@[i].section == usize::MAX && forall|j: int|
                    0 <= j < i ==> (#[trigger] self.glyphs@[j]).section == usize::MAX
            }
    }

    /// A glyph as it is drawn.
    pub open spec fn glyph_node(self, glyph: Glyph, camera: Entity) -> ExtractedUiNode {
        ExtractedUiNode {
            stack_index: self.stack_index,
            transform: glyph.transform,
            color: spec_glyph_color(self.sections@, glyph.section),
            rect: glyph.rect,
            image: glyph.image,
            atlas_size: Some(glyph.atlas_size),
            clip: self.clip,
            flip_x: false,
            flip_y: false,
            camera_entity: camera,
        }
    }

    /// What is drawn of the text: its glyphs.
    pub open spec fn entries(self, default: Option<Entity>) -> Seq<(Entity, ExtractedUiNode)> {
        match self.spec_drawn_to(default) {
            None => Seq::empty(),
            Some(camera) => self.glyph_entries(camera),
        }
    }

    /// The glyphs, each under its entity.
    pub open spec fn glyph_entries(self, camera: Entity) -> Seq<(Entity, ExtractedUiNode)> {
        self.glyphs@.map_values(|glyph: Glyph| (glyph.entity, self.glyph_node(glyph, camera)))
    }

    /// Adds the glyphs. The color is looked up where a section begins.
    fn extract_glyphs(&self, extracted_uinodes: &mut ExtractedUiNodes, camera: Entity)
        requires
            self.has_sections(),
        ensures
            final(extracted_uinodes)@ == with_all(
                old(extracted_uinodes)@,
                self.glyph_entries(camera),
            ),
    {
        let ghost before = extracted_uinodes@;
        let ghost entries = self.glyph_entries(camera);
        let mut color = Color::white();
        let mut current_section: usize = usize::MAX;
        for k in 0..self.glyphs.len()
            invariant
                self.has_sections(),
                entries == self.glyph_entries(camera),
                extracted_uinodes@ == with_all(before, entries.take(k as int)),
                color == spec_glyph_color(self.sections@, current_section),
                current_section == usize::MAX ==> forall|j: int|
                    0 <= j < k ==> (#[trigger] self.glyphs@[j]).section == usize::MAX,
                current_section != usize::MAX ==> exists|j: int|
                    0 <= j < k && (#[trigger] self.glyphs@[j]).section != usize::MAX,
        {
            let glyph = self.glyphs[k];
            if glyph.section != current_section {
                color = self.sections[glyph.section];
                current_section = glyph.section;
                assert(self.glyphs@[k as int].section != usize::MAX) by {
                    assert(self.sections.len() <= usize::MAX);
                }
            }
            let node = ExtractedUiNode {
                stack_index: self.stack_index,
                transform: glyph.transform,
                color,
                rect: glyph.rect,
                image: glyph.image,
                atlas_size: Some(glyph.atlas_size),
                clip: self.clip,
                flip_x: false,
                flip_y: false,
                camera_entity: camera,
            };
            proof {
                assert(entries.take(k + 1) =~= entries.take(k as int).push((glyph.entity, node)));
                lemma_with_all_push(before, entries.take(k as int), glyph.entity, node);
            }
            extracted_uinodes.insert(glyph.entity, node);
        }
        assert(entries.take(entries.len() as int) =~= entries);
    }
}

/// What is drawn of some texts.
pub open spec fn text_entries(rows: Seq<TextRow>, default: Option<Entity>) -> Seq<
    (Entity, ExtractedUiNode),
>
    decreases rows.len(),
{
    if rows.len() == 0 {
        Seq::empty()
    } else {
        text_entries(rows.drop_last(), default) + rows.last().entries(default)
    }
}

/// Adds the glyphs of texts to the nodes that are to be drawn.
pub fn extract_text_uinodes(
    extracted_uinodes: &mut ExtractedUiNodes,
    rows: &Vec<TextRow>,
    default_camera: Option<Entity>,
)
    requires
        forall|k: int|
            0 <= k < rows@.len() && (#[trigger] rows@[k]).spec_drawn_to(default_camera) is Some
                ==> rows@[k].has_sections(),
    ensures
        final(extracted_uinodes)@ == with_all(
            old(extracted_uinodes)@,
            text_entries(rows@, default_camera),
        ),
{
    let ghost before = extracted_uinodes@;
    for k in 0..rows.len()
        invariant
            forall|k: int|
                0 <= k < rows@.len() && (#[trigger] rows@[k]).spec_drawn_to(default_camera) is Some
                    ==> rows@[k].has_sections(),
            extracted_uinodes@ == with_all(
                before,
                text_entries(rows@.take(k as int), default_camera),
            ),
    {
        proof {
            assert(rows@.take(k + 1).drop_last() =~= rows@.take(k as int));
            assert(rows@.take(k + 1).last() == rows@[k as int]);
            lemma_with_all_concat(
                before,
                text_entries(rows@.take(k as int), default_camera),
                rows@[k as int].entries(default_camera),
            );
        }
        if let Some(camera) = rows[k].drawn_to(default_camera) {
            rows[k].extract_glyphs(extracted_uinodes, camera);
        }
    }
    assert(rows@.take(rows@.len() as int) =~= rows@);
}

} // verus!
