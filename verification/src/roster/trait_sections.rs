//! The fighter-wide values that are worth showing, by section.

use vstd::prelude::*;

verus! {

/// A named group of fields.
#[derive(Debug, Clone)]
pub struct TraitSection {
    pub title: &'static str,
    pub description: &'static str,
    pub fields: Vec<TraitField>,
}

/// One field: its name in the file, and what it means.
#[derive(Debug, Clone, Copy)]
pub struct TraitField {
    pub key: &'static str,
    pub label: &'static str,
    pub description: &'static str,
}

/// The name, the label and the description of each field.
pub open spec fn field_texts(fields: Seq<TraitField>) -> Seq<(Seq<char>, Seq<char>, Seq<char>)> {
    fields.map_values(|f: TraitField| (f.key@, f.label@, f.description@))
}

fn trait_field(key: &'static str, label: &'static str, description: &'static str) -> (r: TraitField)
    ensures
        r.key@ == key@,
        r.label@ == label@,
        r.description@ == description@,
{
    TraitField { key, label, description }
}

/// The fields under "Weight & size".
pub open spec fn weight_and_size_fields() -> Seq<(Seq<char>, Seq<char>, Seq<char>)> {
    seq![
        (
            "weight"@,
            "Weight"@,
            "Resistance to knockback. Higher survives longer."@,
        ),
        (
            "scale"@,
            "Model scale"@,
            "Overall size multiplier. Also scales hitboxes and reach."@,
        ),
        (
            "jostle_weight"@,
            "Push weight"@,
            "How hard this character shoves others aside when standing together."@,
        ),
        (
            "jostle_front"@,
            "Push range (front)"@,
            "How far in front the character pushes others."@,
        ),
        (
            "jostle_back"@,
            "Push range (back)"@,
            "How far behind the character pushes others."@,
        ),
    ]
}

fn weight_and_size() -> (r: TraitSection)
    ensures
        r.title@ == "Weight & size"@,
        r.description@ == "How hard the character is to launch, and how big they are."@,
        field_texts(r.fields@) == weight_and_size_fields(),
{
    let mut fields: Vec<TraitField> = Vec::new();
    fields.push(
        trait_field(
            "weight",
            "Weight",
            "Resistance to knockback. Higher survives longer.",
        ),
    );
    fields.push(
        trait_field(
            "scale",
            "Model scale",
            "Overall size multiplier. Also scales hitboxes and reach.",
        ),
    );
    fields.push(
        trait_field(
            "jostle_weight",
            "Push weight",
            "How hard this character shoves others aside when standing together.",
        ),
    );
    fields.push(
        trait_field(
            "jostle_front",
            "Push range (front)",
            "How far in front the character pushes others.",
        ),
    );
    fields.push(
        trait_field(
            "jostle_back",
            "Push range (back)",
            "How far behind the character pushes others.",
        ),
    );
    assert(field_texts(fields@) =~= weight_and_size_fields());
    TraitSection {
        title: "Weight & size",
        description: "How hard the character is to launch, and how big they are.",
        fields,
    }
}

/// The fields under "Ground movement".
pub open spec fn ground_movement_fields() -> Seq<(Seq<char>, Seq<char>, Seq<char>)> {
    seq![
        (
            "walk_speed_max"@,
            "Walk speed"@,
            "Top walking speed."@,
        ),
        (
            "walk_accel_mul"@,
            "Walk acceleration"@,
            "How quickly walking reaches top speed."@,
        ),
        (
            "dash_speed"@,
            "Dash speed"@,
            "Speed of the initial dash out of standing."@,
        ),
        (
            "run_speed_max"@,
            "Run speed"@,
            "Top running speed."@,
        ),
        (
            "run_accel_add"@,
            "Run acceleration"@,
            "How quickly running reaches top speed."@,
        ),
        (
            "ground_brake"@,
            "Ground friction"@,
            "How quickly the character slows to a stop."@,
        ),
    ]
}

fn ground_movement() -> (r: TraitSection)
    ensures
        r.title@ == "Ground movement"@,
        r.description@ == "Walking, dashing, running, and stopping on the ground."@,
        field_texts(r.fields@) == ground_movement_fields(),
{
    let mut fields: Vec<TraitField> = Vec::new();
    fields.push(
        trait_field(
            "walk_speed_max",
            "Walk speed",
            "Top walking speed.",
        ),
    );
    fields.push(
        trait_field(
            "walk_accel_mul",
            "Walk acceleration",
            "How quickly walking reaches top speed.",
        ),
    );
    fields.push(
        trait_field(
            "dash_speed",
            "Dash speed",
            "Speed of the initial dash out of standing.",
        ),
    );
    fields.push(
        trait_field(
            "run_speed_max",
            "Run speed",
            "Top running speed.",
        ),
    );
    fields.push(
        trait_field(
            "run_accel_add",
            "Run acceleration",
            "How quickly running reaches top speed.",
        ),
    );
    fields.push(
        trait_field(
            "ground_brake",
            "Ground friction",
            "How quickly the character slows to a stop.",
        ),
    );
    assert(field_texts(fields@) =~= ground_movement_fields());
    TraitSection {
        title: "Ground movement",
        description: "Walking, dashing, running, and stopping on the ground.",
        fields,
    }
}

/// The fields under "Jumps".
pub open spec fn jumps_fields() -> Seq<(Seq<char>, Seq<char>, Seq<char>)> {
    seq![
        (
            "jump_squat_frame"@,
            "Jump squat"@,
            "Frames of crouch before leaving the ground. Lower is faster."@,
        ),
        (
            "jump_y"@,
            "Full hop height"@,
            "Upward speed of a full jump."@,
        ),
        (
            "mini_jump_y"@,
            "Short hop height"@,
            "Upward speed of a short hop."@,
        ),
        (
            "jump_aerial_y"@,
            "Air jump height"@,
            "Upward speed of a midair jump."@,
        ),
        (
            "jump_speed_x"@,
            "Jump horizontal speed"@,
            "Forward speed carried into a jump."@,
        ),
        (
            "cliff_jump_y"@,
            "Ledge jump height"@,
            "Upward speed of a jump from a ledge."@,
        ),
    ]
}

fn jumps() -> (r: TraitSection)
    ensures
        r.title@ == "Jumps"@,
        r.description@ == "Jump squat, heights, and air jumps."@,
        field_texts(r.fields@) == jumps_fields(),
{
    let mut fields: Vec<TraitField> = Vec::new();
    fields.push(
        trait_field(
            "jump_squat_frame",
            "Jump squat",
            "Frames of crouch before leaving the ground. Lower is faster.",
        ),
    );
    fields.push(
        trait_field(
            "jump_y",
            "Full hop height",
            "Upward speed of a full jump.",
        ),
    );
    fields.push(
        trait_field(
            "mini_jump_y",
            "Short hop height",
            "Upward speed of a short hop.",
        ),
    );
    fields.push(
        trait_field(
            "jump_aerial_y",
            "Air jump height",
            "Upward speed of a midair jump.",
        ),
    );
    fields.push(
        trait_field(
            "jump_speed_x",
            "Jump horizontal speed",
            "Forward speed carried into a jump.",
        ),
    );
    fields.push(
        trait_field(
            "cliff_jump_y",
            "Ledge jump height",
            "Upward speed of a jump from a ledge.",
        ),
    );
    assert(field_texts(fields@) =~= jumps_fields());
    TraitSection {
        title: "Jumps",
        description: "Jump squat, heights, and air jumps.",
        fields,
    }
}

/// The fields under "Air movement".
pub open spec fn air_movement_fields() -> Seq<(Seq<char>, Seq<char>, Seq<char>)> {
    seq![
        (
            "air_speed_x_stable"@,
            "Air speed"@,
            "Top horizontal drift speed in the air."@,
        ),
        (
            "air_accel_x_mul"@,
            "Air acceleration"@,
            "How quickly air drift reaches top speed."@,
        ),
        (
            "air_brake_x"@,
            "Air friction"@,
            "How quickly horizontal air speed decays."@,
        ),
        (
            "air_accel_y"@,
            "Gravity"@,
            "Downward acceleration. Higher falls faster and is easier to combo."@,
        ),
        (
            "air_speed_y_stable"@,
            "Fall speed"@,
            "Top falling speed."@,
        ),
        (
            "dive_speed_y"@,
            "Fast fall speed"@,
            "Top falling speed while fast falling."@,
        ),
    ]
}

fn air_movement() -> (r: TraitSection)
    ensures
        r.title@ == "Air movement"@,
        r.description@ == "Drift, fall speed, and fast falling."@,
        field_texts(r.fields@) == air_movement_fields(),
{
    let mut fields: Vec<TraitField> = Vec::new();
    fields.push(
        trait_field(
            "air_speed_x_stable",
            "Air speed",
            "Top horizontal drift speed in the air.",
        ),
    );
    fields.push(
        trait_field(
            "air_accel_x_mul",
            "Air acceleration",
            "How quickly air drift reaches top speed.",
        ),
    );
    fields.push(
        trait_field(
            "air_brake_x",
            "Air friction",
            "How quickly horizontal air speed decays.",
        ),
    );
    fields.push(
        trait_field(
            "air_accel_y",
            "Gravity",
            "Downward acceleration. Higher falls faster and is easier to combo.",
        ),
    );
    fields.push(
        trait_field(
            "air_speed_y_stable",
            "Fall speed",
            "Top falling speed.",
        ),
    );
    fields.push(
        trait_field(
            "dive_speed_y",
            "Fast fall speed",
            "Top falling speed while fast falling.",
        ),
    );
    assert(field_texts(fields@) =~= air_movement_fields());
    TraitSection {
        title: "Air movement",
        description: "Drift, fall speed, and fast falling.",
        fields,
    }
}

/// The fields under "Landing & shield".
pub open spec fn landing_and_shield_fields() -> Seq<(Seq<char>, Seq<char>, Seq<char>)> {
    seq![
        (
            "landing_frame"@,
            "Landing lag"@,
            "Frames of recovery on a normal landing."@,
        ),
        (
            "landing_heavy_frame"@,
            "Hard landing lag"@,
            "Frames of recovery after a heavy landing."@,
        ),
        (
            "landing_attack_air_frame_n"@,
            "Neutral air landing lag"@,
            "Landing lag after a neutral aerial."@,
        ),
        (
            "landing_attack_air_frame_f"@,
            "Forward air landing lag"@,
            "Landing lag after a forward aerial."@,
        ),
        (
            "landing_attack_air_frame_b"@,
            "Back air landing lag"@,
            "Landing lag after a back aerial."@,
        ),
        (
            "landing_attack_air_frame_hi"@,
            "Up air landing lag"@,
            "Landing lag after an up aerial."@,
        ),
        (
            "landing_attack_air_frame_lw"@,
            "Down air landing lag"@,
            "Landing lag after a down aerial."@,
        ),
        (
            "shield_radius"@,
            "Shield size"@,
            "Radius of the shield bubble."@,
        ),
        (
            "guard_speed_limit"@,
            "Shield drift speed"@,
            "How fast the character can slide while shielding."@,
        ),
    ]
}

fn landing_and_shield() -> (r: TraitSection)
    ensures
        r.title@ == "Landing & shield"@,
        r.description@ == "Landing lag, and the size and behaviour of the shield."@,
        field_texts(r.fields@) == landing_and_shield_fields(),
{
    let mut fields: Vec<TraitField> = Vec::new();
    fields.push(
        trait_field(
            "landing_frame",
            "Landing lag",
            "Frames of recovery on a normal landing.",
        ),
    );
    fields.push(
        trait_field(
            "landing_heavy_frame",
            "Hard landing lag",
            "Frames of recovery after a heavy landing.",
        ),
    );
    fields.push(
        trait_field(
            "landing_attack_air_frame_n",
            "Neutral air landing lag",
            "Landing lag after a neutral aerial.",
        ),
    );
    fields.push(
        trait_field(
            "landing_attack_air_frame_f",
            "Forward air landing lag",
            "Landing lag after a forward aerial.",
        ),
    );
    fields.push(
        trait_field(
            "landing_attack_air_frame_b",
            "Back air landing lag",
            "Landing lag after a back aerial.",
        ),
    );
    fields.push(
        trait_field(
            "landing_attack_air_frame_hi",
            "Up air landing lag",
            "Landing lag after an up aerial.",
        ),
    );
    fields.push(
        trait_field(
            "landing_attack_air_frame_lw",
            "Down air landing lag",
            "Landing lag after a down aerial.",
        ),
    );
    fields.push(
        trait_field(
            "shield_radius",
            "Shield size",
            "Radius of the shield bubble.",
        ),
    );
    fields.push(
        trait_field(
            "guard_speed_limit",
            "Shield drift speed",
            "How fast the character can slide while shielding.",
        ),
    );
    assert(field_texts(fields@) =~= landing_and_shield_fields());
    TraitSection {
        title: "Landing & shield",
        description: "Landing lag, and the size and behaviour of the shield.",
        fields,
    }
}

/// The fields under "Combos".
pub open spec fn combos_fields() -> Seq<(Seq<char>, Seq<char>, Seq<char>)> {
    seq![
        (
            "attack_combo_max"@,
            "Jab hits"@,
            "Number of hits in the jab string."@,
        ),
        (
            "s3_combo_max"@,
            "Side tilt hits"@,
            "Number of hits in the side tilt string."@,
        ),
        (
            "s4_combo_max"@,
            "Side smash hits"@,
            "Number of hits in the side smash string."@,
        ),
    ]
}

fn combos() -> (r: TraitSection)
    ensures
        r.title@ == "Combos"@,
        r.description@ == "How many hits the jab and tilt strings have."@,
        field_texts(r.fields@) == combos_fields(),
{
    let mut fields: Vec<TraitField> = Vec::new();
    fields.push(
        trait_field(
            "attack_combo_max",
            "Jab hits",
            "Number of hits in the jab string.",
        ),
    );
    fields.push(
        trait_field(
            "s3_combo_max",
            "Side tilt hits",
            "Number of hits in the side tilt string.",
        ),
    );
    fields.push(
        trait_field(
            "s4_combo_max",
            "Side smash hits",
            "Number of hits in the side smash string.",
        ),
    );
    assert(field_texts(fields@) =~= combos_fields());
    TraitSection {
        title: "Combos",
        description: "How many hits the jab and tilt strings have.",
        fields,
    }
}

/// The fields worth putting in front of someone, grouped. Every other field can be edited too: the
/// curation decides what is prominent, not what is editable.
pub fn sections() -> (r: Vec<TraitSection>)
    ensures
        r@.len() == 6,
        r@[0].title@ == "Weight & size"@,
        r@[0].description@ == "How hard the character is to launch, and how big they are."@,
        field_texts(r@[0].fields@) == weight_and_size_fields(),
        r@[1].title@ == "Ground movement"@,
        r@[1].description@ == "Walking, dashing, running, and stopping on the ground."@,
        field_texts(r@[1].fields@) == ground_movement_fields(),
        r@[2].title@ == "Jumps"@,
        r@[2].description@ == "Jump squat, heights, and air jumps."@,
        field_texts(r@[2].fields@) == jumps_fields(),
        r@[3].title@ == "Air movement"@,
        r@[3].description@ == "Drift, fall speed, and fast falling."@,
        field_texts(r@[3].fields@) == air_movement_fields(),
        r@[4].title@ == "Landing & shield"@,
        r@[4].description@ == "Landing lag, and the size and behaviour of the shield."@,
        field_texts(r@[4].fields@) == landing_and_shield_fields(),
        r@[5].title@ == "Combos"@,
        r@[5].description@ == "How many hits the jab and tilt strings have."@,
        field_texts(r@[5].fields@) == combos_fields(),
{
    let mut r: Vec<TraitSection> = Vec::new();
    r.push(weight_and_size());
    r.push(ground_movement());
    r.push(jumps());
    r.push(air_movement());
    r.push(landing_and_shield());
    r.push(combos());
    r
}

} // verus!
