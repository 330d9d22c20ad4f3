//! The built-in native rules.
pub mod common;
pub mod max_ten;
pub mod arabic_kanji_numbers;
pub mod scan;
pub mod no_nfd;
pub mod no_zero_width_spaces;
pub mod no_invalid_control_character;
pub mod no_exclamation_question_mark;
pub mod no_hankaku_kana;
pub mod max_kanji_continuous_len;
pub mod max_comma;
pub mod sentence_length;
pub mod no_todo;
pub mod ja_prh;
pub mod no_doubled_joshi;
pub mod ja_no_mixed_period;
pub mod no_mixed_zenkaku_hankaku_alphabet;
pub mod no_mix_dearu_desumasu;
pub mod ja_no_successive_word;
pub mod no_doubled_conjunction;
pub mod no_unmatched_pair;
pub mod no_double_negative_ja;
pub mod no_doubled_conjunctive_particle_ga;
pub mod ja_no_redundant_expression;
pub mod no_dropping_the_ra;
pub mod ja_no_weak_phrase;
pub mod ja_unnatural_alphabet;
pub mod ja_no_abusage;
