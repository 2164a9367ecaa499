use vstd::prelude::*;

use crate::table::NamedTable;
use crate::text::{string_from_chars, to_chars};

verus! {

/// A top-level field of a scene document: a text, the six faces of the skybox, a list of
/// values, or a count.
pub enum SceneField<V> {
    Text(String),
    Skybox(Vec<String>),
    Items(Vec<V>),
    Count(u32),
}

/// A field as plain values.
pub enum SceneFieldView<V> {
    Text(Seq<char>),
    Skybox(Seq<Seq<char>>),
    Items(Seq<V>),
    Count(u32),
}

impl<V> View for SceneField<V> {
    type V = SceneFieldView<V>;

    open spec fn view(&self) -> SceneFieldView<V> {
        match self {
            SceneField::Text(s) => SceneFieldView::Text(s@),
            SceneField::Skybox(faces) => SceneFieldView::Skybox(
                faces@.map_values(|f: String| f@),
            ),
            SceneField::Items(items) => SceneFieldView::Items(items@),
            SceneField::Count(n) => SceneFieldView::Count(*n),
        }
    }
}

/// The name of the project's name field.
pub open spec fn project_name_key() -> Seq<char> {
    seq!['p', 'r', 'o', 'j', 'e', 'c', 't', '_', 'n', 'a', 'm', 'e']
}

/// The name of the skybox field.
pub open spec fn skybox_key() -> Seq<char> {
    seq!['s', 'k', 'y', 'b', 'o', 'x']
}

/// The name of the list of game object ids.
pub open spec fn game_objects_key() -> Seq<char> {
    seq!['g', 'a', 'm', 'e', '_', 'o', 'b', 'j', 'e', 'c', 't', 's']
}

/// The name of the list of lights.
pub open spec fn lights_key() -> Seq<char> {
    seq!['l', 'i', 'g', 'h', 't', 's']
}

/// The name of the list of models.
pub open spec fn models_key() -> Seq<char> {
    seq!['m', 'o', 'd', 'e', 'l', 's']
}

/// The name of the list of transforms.
pub open spec fn transforms_key() -> Seq<char> {
    seq!['t', 'r', 'a', 'n', 's', 'f', 'o', 'r', 'm', 's']
}

/// The name of the count of lights.
pub open spec fn light_count_key() -> Seq<char> {
    seq!['l', 'i', 'g', 'h', 't', '_', 'c', 'o', 'u', 'n', 't']
}

/// The name of the list of entities.
pub open spec fn entities_key() -> Seq<char> {
    seq!['e', 'n', 't', 'i', 't', 'i', 'e', 's']
}

/// The fields of a fresh document: an empty project name, six empty skybox faces, and empty
/// lists of game objects, lights, models and transforms.
pub open spec fn fresh_fields<V>() -> Map<Seq<char>, SceneFieldView<V>> {
    Map::empty().insert(project_name_key(), SceneFieldView::Text(Seq::empty())).insert(
        skybox_key(),
        SceneFieldView::Skybox(Seq::new(6, |i: int| Seq::<char>::empty())),
    ).insert(game_objects_key(), SceneFieldView::Items(Seq::empty())).insert(
        lights_key(),
        SceneFieldView::Items(Seq::empty()),
    ).insert(models_key(), SceneFieldView::Items(Seq::empty())).insert(
        transforms_key(),
        SceneFieldView::Items(Seq::empty()),
    )
}

/// A scene document: its top-level fields by name, with values of type `V` in its lists.
pub struct SceneDocument<V> {
    pub fields: NamedTable<SceneField<V>>,
}

/// The characters of a string.
fn owned_chars(s: &str) -> (r: String)
    ensures
        r@ == s@,
{
    s.to_owned()
}

impl<V> SceneDocument<V> {
    /// The fields as plain values.
    pub open spec fn spec_fields(&self) -> Map<Seq<char>, SceneFieldView<V>> {
        self.fields@.map_values(|f: SceneField<V>| f@)
    }

    /// A fresh document.
    pub fn new() -> (d: Self)
        ensures
            d.spec_fields() == fresh_fields::<V>(),
    {
        let mut fields: NamedTable<SceneField<V>> = NamedTable::new();
        let mut faces: Vec<String> = Vec::new();
        let mut i: usize = 0;
        while i < 6
            invariant
                i <= 6,
                faces@.len() == i,
                forall|k: int| 0 <= k < i ==> (#[trigger] faces@[k])@ == Seq::<char>::empty(),
            decreases 6 - i,
        {
            faces.push(String::new());
            i = i + 1;
        }
        proof {
            reveal_strlit("project_name");
            assert("project_name"@ =~= project_name_key());
            reveal_strlit("skybox");
            assert("skybox"@ =~= skybox_key());
            reveal_strlit("game_objects");
            assert("game_objects"@ =~= game_objects_key());
            reveal_strlit("lights");
            assert("lights"@ =~= lights_key());
            reveal_strlit("models");
            assert("models"@ =~= models_key());
            reveal_strlit("transforms");
            assert("transforms"@ =~= transforms_key());
        }
        let ghost faces_view = faces@.map_values(|f: String| f@);
        assert(faces_view =~= Seq::new(6, |i: int| Seq::<char>::empty()));
        fields.insert(owned_chars("project_name"), SceneField::Text(String::new()));
        fields.insert(owned_chars("skybox"), SceneField::Skybox(faces));
        fields.insert(owned_chars("game_objects"), SceneField::Items(Vec::new()));
        fields.insert(owned_chars("lights"), SceneField::Items(Vec::new()));
        fields.insert(owned_chars("models"), SceneField::Items(Vec::new()));
        fields.insert(owned_chars("transforms"), SceneField::Items(Vec::new()));
        let d = SceneDocument { fields };
        assert(d.spec_fields() =~= fresh_fields::<V>());
        d
    }

    /// Adds a value at the end of the list of entities, which must be there.
    pub fn add_entity(&mut self, entity: V)
        requires
            old(self).spec_fields().contains_key(entities_key()),
            old(self).spec_fields()[entities_key()] is Items,
        ensures
            final(self).spec_fields() == old(self).spec_fields().insert(
                entities_key(),
                SceneFieldView::Items(old(self).spec_fields()[entities_key()]->Items_0.push(entity)),
            ),
    {
        proof {
            reveal_strlit("entities");
            assert("entities"@ =~= entities_key());
        }
        let key = owned_chars("entities");
        let old_field = self.fields.replace(&key, SceneField::Count(0));
        match old_field {
            SceneField::Items(mut items) => {
                items.push(entity);
                self.fields.replace(&key, SceneField::Items(items));
            },
            other => {
                proof {
                    assert(false);
                }
                self.fields.replace(&key, other);
            },
        }
        assert(self.spec_fields() =~= old(self).spec_fields().insert(
            entities_key(),
            SceneFieldView::Items(old(self).spec_fields()[entities_key()]->Items_0.push(entity)),
        ));
    }

    /// Replaces the field `value` with the list `data`, when there is such a field.
    pub fn modify_array_value(&mut self, value: &str, data: Vec<V>)
        ensures
            old(self).spec_fields().contains_key(value@) ==> final(self).spec_fields()
                == old(self).spec_fields().insert(value@, SceneFieldView::Items(data@)),
            !old(self).spec_fields().contains_key(value@) ==> final(self).spec_fields()
                == old(self).spec_fields(),
    {
        let key = owned_chars(value);
        if self.fields.contains_key(&key) {
            let ghost d = data@;
            self.fields.insert(key, SceneField::Items(data));
            assert(self.spec_fields() =~= old(self).spec_fields().insert(
                value@,
                SceneFieldView::Items(d),
            ));
        }
    }

    /// Sets the project's name.
    pub fn modify_project_name(&mut self, project_name: &str)
        ensures
            final(self).spec_fields() == old(self).spec_fields().insert(
                project_name_key(),
                SceneFieldView::Text(project_name@),
            ),
    {
        proof {
            reveal_strlit("project_name");
            assert("project_name"@ =~= project_name_key());
        }
        self.fields.insert(owned_chars("project_name"), SceneField::Text(owned_chars(project_name)));
        assert(self.spec_fields() =~= old(self).spec_fields().insert(
            project_name_key(),
            SceneFieldView::Text(project_name@),
        ));
    }

    /// Sets the six faces of the skybox (x, -x, y, -y, z, -z); the skybox field must hold
    /// faces.
    pub fn modify_skybox(&mut self, skybox_images: Vec<String>)
        requires
            skybox_images@.len() == 6,
            old(self).spec_fields().contains_key(skybox_key()),
            old(self).spec_fields()[skybox_key()] is Skybox,
        ensures
            final(self).spec_fields() == old(self).spec_fields().insert(
                skybox_key(),
                SceneFieldView::Skybox(skybox_images@.map_values(|f: String| f@)),
            ),
    {
        proof {
            reveal_strlit("skybox");
            assert("skybox"@ =~= skybox_key());
        }
        let ghost faces = skybox_images@.map_values(|f: String| f@);
        self.fields.insert(owned_chars("skybox"), SceneField::Skybox(skybox_images));
        assert(self.spec_fields() =~= old(self).spec_fields().insert(
            skybox_key(),
            SceneFieldView::Skybox(faces),
        ));
    }

    /// Sets the count of lights.
    pub fn set_light_count(&mut self, light_count: u32)
        ensures
            final(self).spec_fields() == old(self).spec_fields().insert(
                light_count_key(),
                SceneFieldView::Count(light_count),
            ),
    {
        proof {
            reveal_strlit("light_count");
            assert("light_count"@ =~= light_count_key());
        }
        self.fields.insert(owned_chars("light_count"), SceneField::Count(light_count));
        assert(self.spec_fields() =~= old(self).spec_fields().insert(
            light_count_key(),
            SceneFieldView::Count(light_count),
        ));
    }

    /// The file that the project is saved to: `./`, the project's name, then `.lumin`; the
    /// name field must hold a text.
    pub fn save_file_name(&self) -> (r: String)
        requires
            self.spec_fields().contains_key(project_name_key()),
            self.spec_fields()[project_name_key()] is Text,
        ensures
            r@ == seq!['.', '/'] + self.spec_fields()[project_name_key()]->Text_0 + seq![
                '.',
                'l',
                'u',
                'm',
                'i',
                'n',
            ],
    {
        proof {
            reveal_strlit("project_name");
            assert("project_name"@ =~= project_name_key());
        }
        let key = owned_chars("project_name");
        let mut chars: Vec<char> = vec!['.', '/'];
        match self.fields.get(&key) {
            Some(SceneField::Text(name)) => {
                let name_chars = to_chars(name.as_str());
                let mut i: usize = 0;
                while i < name_chars.len()
                    invariant
                        i <= name_chars@.len(),
                        chars@ == seq!['.', '/'] + name_chars@.take(i as int),
                    decreases name_chars@.len() - i,
                {
                    chars.push(name_chars[i]);
                    i = i + 1;
                    assert(chars@ =~= seq!['.', '/'] + name_chars@.take(i as int));
                }
                assert(name_chars@.take(name_chars@.len() as int) =~= name_chars@);
            },
            _ => {
                proof {
                    assert(false);
                }
            },
        }
        let ghost before = chars@;
        chars.push('.');
        chars.push('l');
        chars.push('u');
        chars.push('m');
        chars.push('i');
        chars.push('n');
        assert(chars@ =~= before + seq!['.', 'l', 'u', 'm', 'i', 'n']);
        let r = string_from_chars(&chars);
        r
    }
}

} // verus!
