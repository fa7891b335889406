# visionary

The logic of an editor for fighter mods: the mod library, the character select screen, fighter
traits, new characters as costumes of a donor, and the rendering of particle effects.

`src/` is a verified library. Every function states in its contract what it returns or changes, and
the public proof functions whose names begin with `law_` state what holds across functions.

- `text`, `paths`, `keyed`, `float_bits`: texts, paths, ordered maps and floats as their bits.
- `params`, `roster/css`, `roster/traits`, `roster/trait_sections`: parameter files, the character
  database and the traits of a fighter.
- `roster/manifest`, `roster/library`, `roster/archive`: what a mod provides, which mods win, and
  where an archive's entries go.
- `roster/names`, `roster/icons`, `roster/gamma`, `roster/ui_images`: names, portraits and picked
  images.
- `roster/scaffold`, `roster/costume_gate`, `roster/animations`, `roster/new_character`,
  `roster/character_card`: new characters.
- `project_hub`, `scratch_dirs`, `plugin_deploy`, `roster/reveal_path`: projects, directories and the
  plugin.
- `effects`, `texture_data`, `texture_uploads`, `texture_plan`, `mipmaps`: the textures of an effect.
- `particle_frame`, `particle_vertices`, `particle_renderer`, `particle_renderer_bnsh`,
  `bnsh_modules`, `renderer`, `regression`: a frame of particles, its pipelines and its comparison.

`app/` is the application around it: files, windows, the GPU and floating point. `tests/` run the
library with the crates it calls.
