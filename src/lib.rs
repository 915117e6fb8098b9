//! Text augmentation: tokenization with change tracking, count policies,
//! substitution tables and character / word level perturbations.

pub mod text;
pub mod token;
pub mod doc;
pub mod count;
pub mod mapping;
pub mod model;
pub mod random;
pub mod aug;
pub mod char_aug;
pub mod word_aug;
pub mod utils;
pub mod api;
pub mod laws;

pub use api::{BaseAugmentor, CharacterAugmentor, RustOCRAugmentor, RustRandomCharApiClass, RustRandomWordApiClass, WordAugmentor};
pub use aug::{Action, WordSampling};
pub use char_aug::{KeyboardAugmentor, OcrAugmentor, RandomCharAugmentor, SwapMode};
pub use count::{AugCountParams, Fraction};
pub use doc::Doc;
pub use mapping::{transform_to_set, Mapping, MappingSet};
pub use model::{BaseModel, CharacterModel, KeyboardModel, OcrModel, RandomCharModel, RandomWordModel, WordModel};
pub use token::{ChangeLog, Token, TokenHandler, TokenType};
pub use utils::{split_n_to_chunks, split_to_chunks_indexes};
pub use word_aug::RandomWordAugmentor;
